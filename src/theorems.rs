//! What holds of every assembly: bindings never change, variables are
//! allocated in order of first use, labels name the next instruction, and
//! every word is sixteen bits with the prefix of its kind.
use vstd::prelude::*;

use crate::assembler::{
    FIRST_VARIABLE, StatementView, assembly, encode_upto, instruction_count, is_label,
    labels_upto, parse_upto, program_of, program_words,
};
use crate::code::{
    MAX_ADDRESS, address_word, bits, comp_code, compute_encoding, dest_code, jump_code,
    lemma_bits_len, or_empty,
};
use crate::parser::{InstructionView, kept, source_lines};
use crate::symbol_table::predefined;
use crate::text::{decimal, is_digit, is_numeral, is_symbol_name, lines_of};

verus! {

/// The operand of an address statement.
pub open spec fn operand(s: StatementView) -> Seq<char> {
    s.instruction->Address_0
}

/// Whether `s` loads the address of a symbol (not a numeral).
pub open spec fn names_symbol(s: StatementView) -> bool {
    s.instruction is Address && !is_numeral(operand(s))
}

/// The word that statement `s` receives when its symbol reads `t`.
pub open spec fn word_of(s: StatementView, t: Map<Seq<char>, usize>) -> Seq<char> {
    match s.instruction {
        InstructionView::Address(sym) => address_word(
            if is_numeral(sym) {
                decimal(sym)
            } else {
                t[sym] as nat
            },
        ),
        InstructionView::Compute { dest, comp, jump } => match compute_encoding(dest, comp, jump) {
            Ok(w) => w,
            Err(_) => Seq::empty(),
        },
        InstructionView::Label(_) => Seq::empty(),
    }
}

/// Whether the fields of a compute statement encode.
pub open spec fn fields_encode(s: StatementView) -> bool {
    match s.instruction {
        InstructionView::Compute { dest, comp, jump } => compute_encoding(dest, comp, jump) is Ok,
        _ => true,
    }
}

/// The symbols that the second pass allocates over the first `n`
/// statements, in order of first use: operands that are no numeral, not
/// bound in `t0`, and not met before.
pub open spec fn fresh_symbols(p: Seq<StatementView>, t0: Map<Seq<char>, usize>, n: nat) -> Seq<
    Seq<char>,
>
    decreases n,
{
    if n == 0 {
        Seq::empty()
    } else {
        let prev = fresh_symbols(p, t0, (n - 1) as nat);
        let s = p[n - 1];
        if names_symbol(s) && !t0.contains_key(operand(s)) && !prev.contains(operand(s)) {
            prev.push(operand(s))
        } else {
            prev
        }
    }
}

/// A program as the classifier makes it: it fits in memory, and its label
/// names are symbol names.
pub open spec fn valid_program(p: Seq<StatementView>) -> bool {
    &&& p.len() <= usize::MAX
    &&& forall|k: int|
        0 <= k < p.len() && (#[trigger] p[k]).instruction is Label ==> is_symbol_name(
            p[k].instruction->Label_0,
        )
}

proof fn lemma_submap_trans(a: Map<Seq<char>, usize>, b: Map<Seq<char>, usize>, c: Map<Seq<char>, usize>)
    requires
        a.submap_of(b),
        b.submap_of(c),
    ensures
        a.submap_of(c),
{
    assert forall|k: Seq<char>| #[trigger] a.contains_key(k) implies c.contains_key(k) && c[k]
        == a[k] by {
        assert(b.contains_key(k));
    }
}

proof fn lemma_count_grows(p: Seq<StatementView>, a: nat, b: nat)
    requires
        a <= b <= p.len(),
    ensures
        instruction_count(p, a) <= instruction_count(p, b),
        instruction_count(p, b) <= instruction_count(p, a) + (b - a),
    decreases b - a,
{
    if a < b {
        lemma_count_grows(p, a, (b - 1) as nat);
    }
}

/// A symbol name is no numeral.
proof fn lemma_name_is_no_numeral(s: Seq<char>)
    requires
        is_symbol_name(s),
    ensures
        !is_numeral(s),
{
    if is_numeral(s) {
        assert(is_digit(s[0]));
    }
}

proof fn lemma_parsed_labels_are_names(ls: Seq<(nat, Seq<char>)>, n: nat)
    requires
        n <= ls.len(),
        parse_upto(ls, n) is Ok,
    ensures
        parse_upto(ls, n)->Ok_0.len() == n,
        forall|k: int|
            0 <= k < n && (#[trigger] parse_upto(ls, n)->Ok_0[k]).instruction is Label
                ==> is_symbol_name(parse_upto(ls, n)->Ok_0[k].instruction->Label_0),
    decreases n,
{
    if n > 0 {
        let m = (n - 1) as nat;
        lemma_parsed_labels_are_names(ls, m);
        let p = parse_upto(ls, m)->Ok_0;
        let p2 = parse_upto(ls, n)->Ok_0;
        assert forall|k: int| 0 <= k < n && (#[trigger] p2[k]).instruction is Label implies is_symbol_name(
            p2[k].instruction->Label_0,
        ) by {
            if k < m {
                assert(p2[k] == p[k]);
            }
        }
    }
}

/// The program of a source text that fits in memory is valid: its label
/// names are symbol names.
pub proof fn programs_are_valid(src: Seq<char>)
    requires
        program_of(src) is Ok,
        source_lines(src).len() <= usize::MAX,
    ensures
        valid_program(program_of(src)->Ok_0),
{
    lemma_parsed_labels_are_names(source_lines(src), source_lines(src).len());
}

/// The first pass only adds bindings.
proof fn lemma_labels_keep(p: Seq<StatementView>, t0: Map<Seq<char>, usize>, n: nat)
    requires
        n <= p.len(),
        labels_upto(p, t0, n) is Ok,
    ensures
        t0.submap_of(labels_upto(p, t0, n)->Ok_0),
    decreases n,
{
    if n > 0 {
        let m = (n - 1) as nat;
        lemma_labels_keep(p, t0, m);
        let t = labels_upto(p, t0, m)->Ok_0;
        let t2 = labels_upto(p, t0, n)->Ok_0;
        assert(t.submap_of(t2));
        lemma_submap_trans(t0, t, t2);
    }
}

/// The first pass only adds bindings, and binds each label to the address
/// of the instruction that follows it.
pub proof fn labels_bind_next_instruction(p: Seq<StatementView>, t0: Map<Seq<char>, usize>, n: nat)
    requires
        n <= p.len(),
        p.len() <= usize::MAX,
        labels_upto(p, t0, n) is Ok,
    ensures
        t0.submap_of(labels_upto(p, t0, n)->Ok_0),
        forall|k: int|
            0 <= k < n && (#[trigger] p[k]).instruction is Label ==> {
                let t = labels_upto(p, t0, n)->Ok_0;
                &&& t.contains_key(p[k].instruction->Label_0)
                &&& t[p[k].instruction->Label_0] as nat == instruction_count(p, k as nat)
            },
    decreases n,
{
    if n > 0 {
        let m = (n - 1) as nat;
        labels_bind_next_instruction(p, t0, m);
        lemma_count_grows(p, 0, m);
        let t = labels_upto(p, t0, m)->Ok_0;
        let t2 = labels_upto(p, t0, n)->Ok_0;
        assert(t.submap_of(t2));
        lemma_submap_trans(t0, t, t2);
        assert forall|k: int|
            0 <= k < n && (#[trigger] p[k]).instruction is Label implies {
                &&& t2.contains_key(p[k].instruction->Label_0)
                &&& t2[p[k].instruction->Label_0] as nat == instruction_count(p, k as nat)
            } by {
            if k < m {
                assert(t.contains_key(p[k].instruction->Label_0));
            }
        }
    }
}

/// The state of the second pass: bindings only grow, one word stands per
/// instruction, each symbol met is bound, and each word is that of its
/// statement under the table as it ends.
pub proof fn lemma_encode_state(p: Seq<StatementView>, t0: Map<Seq<char>, usize>, n: nat)
    requires
        n <= p.len(),
        encode_upto(p, t0, n) is Ok,
    ensures
        ({
            let (t, next, out) = encode_upto(p, t0, n)->Ok_0;
            &&& t0.submap_of(t)
            &&& out.len() == instruction_count(p, n)
            &&& forall|k: int| 0 <= k < n && names_symbol(#[trigger] p[k]) ==> t.contains_key(operand(p[k]))
            &&& forall|k: int|
                0 <= k < n && !is_label(#[trigger] p[k]) ==> out[instruction_count(p, k as nat) as int]
                    == word_of(p[k], t)
            &&& forall|k: int| 0 <= k < n ==> fields_encode(#[trigger] p[k])
        }),
    decreases n,
{
    if n > 0 {
        let m = (n - 1) as nat;
        lemma_encode_state(p, t0, m);
        let (t, next, out) = encode_upto(p, t0, m)->Ok_0;
        let (t2, next2, out2) = encode_upto(p, t0, n)->Ok_0;
        let s = p[m as int];
        match s.instruction {
            InstructionView::Label(_) => {
                assert(t2 == t && out2 == out);
            },
            InstructionView::Address(sym) => {
                if !is_numeral(sym) && !t.contains_key(sym) {
                    assert(next <= MAX_ADDRESS);
                    assert(t2 == t.insert(sym, next as usize));
                    assert(out2 == out.push(address_word(next)));
                } else {
                    assert(t2 == t);
                }
            },
            InstructionView::Compute { dest, comp, jump } => {
                assert(t2 == t);
                assert(out2 == out.push(compute_encoding(dest, comp, jump)->Ok_0));
            },
        }
        assert(t.submap_of(t2));
        lemma_submap_trans(t0, t, t2);
        assert forall|k: int| 0 <= k < n && names_symbol(#[trigger] p[k]) implies t2.contains_key(
            operand(p[k]),
        ) by {
            if k < m {
                assert(t.contains_key(operand(p[k])));
            }
        }
        assert forall|k: int|
            0 <= k < n && !is_label(#[trigger] p[k]) implies out2[instruction_count(p, k as nat) as int]
                == word_of(p[k], t2) by {
            if k < m {
                lemma_count_grows(p, (k + 1) as nat, m);
                assert(out2[instruction_count(p, k as nat) as int] == out[instruction_count(p, k as nat) as int]);
                if names_symbol(p[k]) {
                    assert(t.contains_key(operand(p[k])));
                }
                assert(word_of(p[k], t) == word_of(p[k], t2));
            }
        }
        assert forall|k: int| 0 <= k < n implies fields_encode(#[trigger] p[k]) by {
            if k < m {
                assert(fields_encode(p[k]));
            }
        }
    }
}

/// A binary numeral holds only `0` and `1`.
pub open spec fn is_binary(w: Seq<char>) -> bool {
    forall|i: int| 0 <= i < w.len() ==> (#[trigger] w[i] == '0' || w[i] == '1')
}

proof fn lemma_bits_binary(v: nat, width: nat)
    ensures
        is_binary(bits(v, width)),
    decreases width,
{
    if width > 0 {
        lemma_bits_binary(v / 2, (width - 1) as nat);
    }
}

proof fn lemma_address_word_shape(v: nat)
    ensures
        address_word(v).len() == 16,
        address_word(v)[0] == '0',
        is_binary(address_word(v)),
{
    lemma_bits_len(v, 15);
    lemma_bits_binary(v, 15);
}

proof fn lemma_compute_word_shape(
    dest: Option<Seq<char>>,
    comp: Seq<char>,
    jump: Option<Seq<char>>,
)
    requires
        compute_encoding(dest, comp, jump) is Ok,
    ensures
        compute_encoding(dest, comp, jump)->Ok_0.len() == 16,
        compute_encoding(dest, comp, jump)->Ok_0.take(3) == seq!['1', '1', '1'],
        is_binary(compute_encoding(dest, comp, jump)->Ok_0),
{
    let w = compute_encoding(dest, comp, jump)->Ok_0;
    let dc = dest_code(or_empty(dest))->0;
    let cc = comp_code(comp)->0;
    let jc = jump_code(or_empty(jump))->0;
    lemma_bits_len(cc, 7);
    lemma_bits_len(dc, 3);
    lemma_bits_len(jc, 3);
    lemma_bits_binary(cc, 7);
    lemma_bits_binary(dc, 3);
    lemma_bits_binary(jc, 3);
    assert(w == seq!['1', '1', '1'] + bits(cc, 7) + bits(dc, 3) + bits(jc, 3));
    assert(w.take(3) =~= seq!['1', '1', '1']);
}

/// Variables are allocated in order of first use: the `k`-th fresh symbol
/// is bound to `16 + k`, a symbol met again keeps its address, and nothing
/// bound before is changed.
pub proof fn variables_in_order_of_first_use(p: Seq<StatementView>, t0: Map<Seq<char>, usize>, n: nat)
    requires
        n <= p.len(),
        encode_upto(p, t0, n) is Ok,
    ensures
        ({
            let (t, next, out) = encode_upto(p, t0, n)->Ok_0;
            let fresh = fresh_symbols(p, t0, n);
            &&& t0.submap_of(t)
            &&& next == FIRST_VARIABLE + fresh.len()
            &&& fresh.no_duplicates()
            &&& forall|name: Seq<char>| #[trigger] t.contains_key(name) <==> (t0.contains_key(name)
                || fresh.contains(name))
            &&& forall|k: int| 0 <= k < fresh.len() ==> !t0.contains_key(#[trigger] fresh[k])
                && t[fresh[k]] as nat == FIRST_VARIABLE + k
        }),
    decreases n,
{
    if n > 0 {
        let m = (n - 1) as nat;
        variables_in_order_of_first_use(p, t0, m);
        let (t, next, out) = encode_upto(p, t0, m)->Ok_0;
        let (t2, next2, out2) = encode_upto(p, t0, n)->Ok_0;
        let fresh = fresh_symbols(p, t0, m);
        let fresh2 = fresh_symbols(p, t0, n);
        let s = p[m as int];
        if names_symbol(s) && !t.contains_key(operand(s)) {
            let sym = operand(s);
            assert(!t0.contains_key(sym) && !fresh.contains(sym));
            assert(fresh2 == fresh.push(sym));
            assert(next <= MAX_ADDRESS);
            assert(t2 == t.insert(sym, next as usize));
            assert(next2 == next + 1);
            assert forall|name: Seq<char>| fresh2.contains(name) <==> (fresh.contains(name)
                || name == sym) by {
                if fresh2.contains(name) {
                    let k = choose|k: int| 0 <= k < fresh2.len() && fresh2[k] == name;
                    if k < fresh.len() {
                        assert(fresh[k] == name);
                    }
                }
                if fresh.contains(name) {
                    let k = choose|k: int| 0 <= k < fresh.len() && fresh[k] == name;
                    assert(fresh2[k] == name);
                }
                if name == sym {
                    assert(fresh2[fresh.len() as int] == name);
                }
            }
            assert forall|i: int, j: int|
                0 <= i < fresh2.len() && 0 <= j < fresh2.len() && i != j implies fresh2[i]
                != fresh2[j] by {
                if i < fresh.len() && j < fresh.len() {
                } else if i < fresh.len() {
                    assert(fresh.contains(fresh2[i]));
                } else if j < fresh.len() {
                    assert(fresh.contains(fresh2[j]));
                }
            }
            assert forall|k: int| 0 <= k < fresh2.len() implies !t0.contains_key(#[trigger] fresh2[k])
                && t2[fresh2[k]] as nat == FIRST_VARIABLE + k by {
                if k < fresh.len() {
                    assert(fresh2[k] == fresh[k]);
                    assert(fresh.contains(fresh[k]));
                }
            }
        } else {
            assert(fresh2 == fresh);
            assert(t2 == t);
            assert(next2 == next);
        }
    }
}

/// The predefined symbols keep their addresses whatever the program: both
/// passes leave their bindings as they were.
pub proof fn predefined_symbols_are_fixed(p: Seq<StatementView>)
    requires
        p.len() <= usize::MAX,
        labels_upto(p, predefined(), p.len()) is Ok,
    ensures
        predefined().submap_of(labels_upto(p, predefined(), p.len())->Ok_0),
        encode_upto(p, labels_upto(p, predefined(), p.len())->Ok_0, p.len()) is Ok
            ==> predefined().submap_of(
            encode_upto(p, labels_upto(p, predefined(), p.len())->Ok_0, p.len())->Ok_0.0,
        ),
{
    labels_bind_next_instruction(p, predefined(), p.len());
    let t = labels_upto(p, predefined(), p.len())->Ok_0;
    if encode_upto(p, t, p.len()) is Ok {
        lemma_encode_state(p, t, p.len());
        let t2 = encode_upto(p, t, p.len())->Ok_0.0;
        lemma_submap_trans(predefined(), t, t2);
    }
}

/// A reference to a label loads the address of the instruction that
/// follows the label, whether it stands before or after the label.
pub proof fn label_references_resolve(p: Seq<StatementView>, i: int, j: int)
    requires
        valid_program(p),
        program_words(p) is Ok,
        0 <= i < p.len(),
        0 <= j < p.len(),
        p[i].instruction is Label,
        p[j].instruction == InstructionView::Address(p[i].instruction->Label_0),
    ensures
        program_words(p)->Ok_0[instruction_count(p, j as nat) as int] == address_word(
            instruction_count(p, i as nat),
        ),
{
    let name = p[i].instruction->Label_0;
    labels_bind_next_instruction(p, predefined(), p.len());
    let t = labels_upto(p, predefined(), p.len())->Ok_0;
    lemma_encode_state(p, t, p.len());
    lemma_name_is_no_numeral(name);
    assert(!is_label(p[j]));
}

proof fn lemma_lines_count(s: Seq<char>)
    ensures
        1 <= lines_of(s).len() <= s.len() + 1,
    decreases s.len(),
{
    if s.len() > 0 {
        lemma_lines_count(s.drop_last());
    }
}

proof fn lemma_kept_count(ls: Seq<Seq<char>>, n: nat)
    ensures
        kept(ls, n).len() <= n,
    decreases n,
{
    if n > 0 {
        lemma_kept_count(ls, (n - 1) as nat);
    }
}

/// In an assembled source text, a reference to a label loads the address
/// of the instruction that follows the label, whether it stands before or
/// after the label.
pub proof fn label_references_resolve_in_source(src: Seq<char>, i: int, j: int)
    requires
        src.len() < usize::MAX,
        assembly(src) is Ok,
        0 <= i < program_of(src)->Ok_0.len(),
        0 <= j < program_of(src)->Ok_0.len(),
        program_of(src)->Ok_0[i].instruction is Label,
        program_of(src)->Ok_0[j].instruction == InstructionView::Address(
            program_of(src)->Ok_0[i].instruction->Label_0,
        ),
    ensures
        ({
            let p = program_of(src)->Ok_0;
            assembly(src)->Ok_0[instruction_count(p, j as nat) as int] == address_word(
                instruction_count(p, i as nat),
            )
        }),
{
    lemma_lines_count(src);
    lemma_kept_count(lines_of(src), lines_of(src).len());
    programs_are_valid(src);
    label_references_resolve(program_of(src)->Ok_0, i, j);
}

/// The words of a program: one per instruction, each sixteen characters,
/// starting with `111` for a compute instruction and with `0` for an
/// address instruction.
pub proof fn words_have_their_prefix(p: Seq<StatementView>, k: int)
    requires
        program_words(p) is Ok,
        0 <= k < p.len(),
        !is_label(p[k]),
    ensures
        program_words(p)->Ok_0.len() == instruction_count(p, p.len()),
        ({
            let w = program_words(p)->Ok_0[instruction_count(p, k as nat) as int];
            &&& w.len() == 16
            &&& is_binary(w)
            &&& p[k].instruction is Compute ==> w.take(3) == seq!['1', '1', '1'] && w
                == compute_encoding(
                p[k].instruction->dest,
                p[k].instruction->comp,
                p[k].instruction->jump,
            )->Ok_0
            &&& p[k].instruction is Address ==> w[0] == '0'
        }),
{
    let t = labels_upto(p, predefined(), p.len())->Ok_0;
    lemma_encode_state(p, t, p.len());
    let tf = encode_upto(p, t, p.len())->Ok_0.0;
    let w = program_words(p)->Ok_0[instruction_count(p, k as nat) as int];
    assert(w == word_of(p[k], tf));
    assert(fields_encode(p[k]));
    match p[k].instruction {
        InstructionView::Address(sym) => {
            lemma_address_word_shape(if is_numeral(sym) { decimal(sym) } else { tf[sym] as nat });
        },
        InstructionView::Compute { dest, comp, jump } => {
            lemma_compute_word_shape(dest, comp, jump);
        },
        InstructionView::Label(_) => {},
    }
}

/// The table that the second pass of a program leaves.
pub open spec fn final_table(p: Seq<StatementView>) -> Map<Seq<char>, usize> {
    encode_upto(p, labels_upto(p, predefined(), p.len())->Ok_0, p.len())->Ok_0.0
}

/// Each word of an assembled program is that of its statement under the
/// table as the second pass leaves it, and that table keeps every
/// predefined symbol and every label as the first pass bound it.
pub proof fn words_follow_final_table(p: Seq<StatementView>, k: int)
    requires
        program_words(p) is Ok,
        0 <= k < p.len(),
        !is_label(p[k]),
    ensures
        program_words(p)->Ok_0[instruction_count(p, k as nat) as int] == word_of(
            p[k],
            final_table(p),
        ),
        labels_upto(p, predefined(), p.len())->Ok_0.submap_of(final_table(p)),
        predefined().submap_of(final_table(p)),
        names_symbol(p[k]) ==> final_table(p).contains_key(operand(p[k])),
{
    let t = labels_upto(p, predefined(), p.len())->Ok_0;
    lemma_encode_state(p, t, p.len());
    lemma_labels_keep(p, predefined(), p.len());
    let tf = final_table(p);
    lemma_submap_trans(predefined(), t, tf);
}

/// An operand that names a predefined symbol loads that symbol's fixed
/// address, whatever labels and variables the program holds.
pub proof fn predefined_operands_load_fixed_address(p: Seq<StatementView>, k: int)
    requires
        program_words(p) is Ok,
        0 <= k < p.len(),
        names_symbol(p[k]),
        predefined().contains_key(operand(p[k])),
    ensures
        program_words(p)->Ok_0[instruction_count(p, k as nat) as int] == address_word(
            predefined()[operand(p[k])] as nat,
        ),
{
    words_follow_final_table(p, k);
}

/// The operand of a variable loads `16 + j`, where `j` is the rank of the
/// variable among the symbols of the program that are no numeral, no
/// predefined symbol and no label, in order of first use; every occurrence
/// loads the same address.
pub proof fn variables_load_in_order_of_first_use(p: Seq<StatementView>, k: int, j: int)
    requires
        program_words(p) is Ok,
        0 <= k < p.len(),
        names_symbol(p[k]),
        0 <= j < fresh_symbols(p, labels_upto(p, predefined(), p.len())->Ok_0, p.len()).len(),
        operand(p[k]) == fresh_symbols(p, labels_upto(p, predefined(), p.len())->Ok_0, p.len())[j],
    ensures
        program_words(p)->Ok_0[instruction_count(p, k as nat) as int] == address_word(
            (FIRST_VARIABLE + j) as nat,
        ),
{
    let t = labels_upto(p, predefined(), p.len())->Ok_0;
    words_follow_final_table(p, k);
    variables_in_order_of_first_use(p, t, p.len());
    let fresh = fresh_symbols(p, t, p.len());
    assert(final_table(p)[fresh[j]] as nat == FIRST_VARIABLE + j);
}

/// Assembling is a function of the source text: the same text gives the
/// same words, or the same failure.
pub proof fn assembly_is_deterministic(a: Seq<char>, b: Seq<char>)
    requires
        a == b,
    ensures
        assembly(a) == assembly(b),
{
}

} // verus!
