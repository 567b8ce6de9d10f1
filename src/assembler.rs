//! The driver: cleans the source into a program, collects the labels in a
//! first pass, then allocates variables and encodes in a second.
use vstd::prelude::*;

use crate::code::{
    MAX_ADDRESS, address_encoding, compute_encoding, encode_address, encode_compute,
};
use crate::error::{AsmError, ErrorKind, Failure};
use crate::parser::{
    Instruction, InstructionView, Parser, classification, classify, source_lines,
};
use crate::symbol_table::{SymbolTable, predefined};
use crate::text::{chars_of, decimal, is_numeral, numeral, parse_decimal};

verus! {

/// The first address given to a variable.
pub const FIRST_VARIABLE: usize = 16;

/// One instruction of the program, with the number and text of its source line.
#[derive(Debug, Clone, PartialEq, Eq)]
pub struct Statement {
    pub line: usize,
    pub text: String,
    pub instruction: Instruction,
}

pub ghost struct StatementView {
    pub line: nat,
    pub text: Seq<char>,
    pub instruction: InstructionView,
}

impl View for Statement {
    type V = StatementView;

    open spec fn view(&self) -> StatementView {
        StatementView { line: self.line as nat, text: self.text@, instruction: self.instruction@ }
    }
}

pub open spec fn statements(v: Seq<Statement>) -> Seq<StatementView> {
    v.map_values(|s: Statement| s@)
}

pub open spec fn words(v: Seq<String>) -> Seq<Seq<char>> {
    v.map_values(|s: String| s@)
}

/// A failure of kind `kind` at statement `s`.
pub open spec fn failure_at(kind: ErrorKind, s: StatementView) -> Failure {
    Failure { kind, line: s.line, text: s.text }
}

/// The first `n` numbered lines classified, or the failure of the first
/// line that does not classify.
pub open spec fn parse_upto(ls: Seq<(nat, Seq<char>)>, n: nat) -> Result<
    Seq<StatementView>,
    Failure,
>
    decreases n,
{
    if n == 0 {
        Ok(Seq::empty())
    } else {
        match parse_upto(ls, (n - 1) as nat) {
            Err(f) => Err(f),
            Ok(p) => match classification(ls[n - 1].1) {
                Err(k) => Err(Failure { kind: k, line: ls[n - 1].0, text: ls[n - 1].1 }),
                Ok(i) => Ok(p.push(StatementView { line: ls[n - 1].0, text: ls[n - 1].1, instruction: i })),
            },
        }
    }
}

/// The program of a source text: its instruction lines, classified.
pub open spec fn program_of(src: Seq<char>) -> Result<Seq<StatementView>, Failure> {
    parse_upto(source_lines(src), source_lines(src).len())
}

pub open spec fn is_label(s: StatementView) -> bool {
    s.instruction is Label
}

/// How many of the first `n` statements are instructions (not labels): the
/// address of the instruction that follows them.
pub open spec fn instruction_count(p: Seq<StatementView>, n: nat) -> nat
    decreases n,
{
    if n == 0 {
        0
    } else {
        instruction_count(p, (n - 1) as nat) + if is_label(p[n - 1]) { 0nat } else { 1nat }
    }
}

/// The table after the first pass over the first `n` statements: each
/// label is bound to the address of the next instruction; a label that is
/// bound already fails.
pub open spec fn labels_upto(p: Seq<StatementView>, t0: Map<Seq<char>, usize>, n: nat) -> Result<
    Map<Seq<char>, usize>,
    Failure,
>
    decreases n,
{
    if n == 0 {
        Ok(t0)
    } else {
        match labels_upto(p, t0, (n - 1) as nat) {
            Err(f) => Err(f),
            Ok(t) => match p[n - 1].instruction {
                InstructionView::Label(name) => if t.contains_key(name) {
                    Err(failure_at(ErrorKind::DuplicateLabel, p[n - 1]))
                } else {
                    Ok(t.insert(name, instruction_count(p, (n - 1) as nat) as usize))
                },
                _ => Ok(t),
            },
        }
    }
}

/// The state after the second pass over the first `n` statements: the
/// table, the next free variable address, and the words so far. A numeral
/// is its own address; a bound symbol reads the table; any other symbol is
/// a new variable, bound to the next free address.
pub open spec fn encode_upto(p: Seq<StatementView>, t0: Map<Seq<char>, usize>, n: nat) -> Result<
    (Map<Seq<char>, usize>, nat, Seq<Seq<char>>),
    Failure,
>
    decreases n,
{
    if n == 0 {
        Ok((t0, FIRST_VARIABLE as nat, Seq::empty()))
    } else {
        match encode_upto(p, t0, (n - 1) as nat) {
            Err(f) => Err(f),
            Ok((t, next, out)) => {
                let s = p[n - 1];
                match s.instruction {
                    InstructionView::Label(_) => Ok((t, next, out)),
                    InstructionView::Address(sym) => if is_numeral(sym) {
                        match address_encoding(decimal(sym)) {
                            Ok(w) => Ok((t, next, out.push(w))),
                            Err(k) => Err(failure_at(k, s)),
                        }
                    } else if t.contains_key(sym) {
                        match address_encoding(t[sym] as nat) {
                            Ok(w) => Ok((t, next, out.push(w))),
                            Err(k) => Err(failure_at(k, s)),
                        }
                    } else {
                        match address_encoding(next) {
                            Ok(w) => Ok((t.insert(sym, next as usize), next + 1, out.push(w))),
                            Err(k) => Err(failure_at(k, s)),
                        }
                    },
                    InstructionView::Compute { dest, comp, jump } => match compute_encoding(
                        dest,
                        comp,
                        jump,
                    ) {
                        Ok(w) => Ok((t, next, out.push(w))),
                        Err(k) => Err(failure_at(k, s)),
                    },
                }
            },
        }
    }
}

/// The words of a program whose labels are in `t`.
pub open spec fn encoding(p: Seq<StatementView>, t: Map<Seq<char>, usize>) -> Result<
    Seq<Seq<char>>,
    Failure,
> {
    match encode_upto(p, t, p.len()) {
        Ok((_, _, out)) => Ok(out),
        Err(f) => Err(f),
    }
}

/// The words of a program: the labels are collected first, over the
/// predefined symbols, then the program is encoded.
pub open spec fn program_words(p: Seq<StatementView>) -> Result<Seq<Seq<char>>, Failure> {
    match labels_upto(p, predefined(), p.len()) {
        Err(f) => Err(f),
        Ok(t) => encoding(p, t),
    }
}

/// The output of assembling a source text: one word per instruction, or
/// the first failure.
pub open spec fn assembly(src: Seq<char>) -> Result<Seq<Seq<char>>, Failure> {
    match program_of(src) {
        Err(f) => Err(f),
        Ok(p) => program_words(p),
    }
}

/// A failure in the first `n` lines is the failure of all of them.
proof fn lemma_parse_failure_stays(ls: Seq<(nat, Seq<char>)>, n: nat, m: nat)
    requires
        n <= m,
        parse_upto(ls, n) is Err,
    ensures
        parse_upto(ls, m) == parse_upto(ls, n),
    decreases m - n,
{
    if n < m {
        lemma_parse_failure_stays(ls, n, (m - 1) as nat);
    }
}

/// A failure of the first pass over `n` statements is its failure over more.
proof fn lemma_labels_failure_stays(p: Seq<StatementView>, t0: Map<Seq<char>, usize>, n: nat, m: nat)
    requires
        n <= m,
        labels_upto(p, t0, n) is Err,
    ensures
        labels_upto(p, t0, m) == labels_upto(p, t0, n),
    decreases m - n,
{
    if n < m {
        lemma_labels_failure_stays(p, t0, n, (m - 1) as nat);
    }
}

/// A failure of the second pass over `n` statements is its failure over more.
proof fn lemma_encode_failure_stays(p: Seq<StatementView>, t0: Map<Seq<char>, usize>, n: nat, m: nat)
    requires
        n <= m,
        encode_upto(p, t0, n) is Err,
    ensures
        encode_upto(p, t0, m) == encode_upto(p, t0, n),
    decreases m - n,
{
    if n < m {
        lemma_encode_failure_stays(p, t0, n, (m - 1) as nat);
    }
}

fn fail(kind: ErrorKind, s: &Statement) -> (e: AsmError)
    ensures
        e@ == failure_at(kind, s@),
{
    AsmError { kind, line: s.line, text: s.text.clone() }
}

/// Cleans `source` and classifies each of its instruction lines.
pub fn parse_program(source: &str) -> (r: Result<Vec<Statement>, AsmError>)
    ensures
        match r {
            Ok(p) => program_of(source@) == Ok::<_, Failure>(statements(p@)),
            Err(e) => program_of(source@) == Err::<Seq<StatementView>, _>(e@),
        },
{
    let parser = Parser::new(source.to_owned());
    let ghost ls = parser.entries();
    let mut program: Vec<Statement> = Vec::new();
    assert(statements(program@) =~= Seq::empty());
    let mut k: usize = 0;
    while k < parser.lines.len()
        invariant
            parser.wf(),
            ls == parser.entries(),
            ls == source_lines(source@),
            k <= parser.lines.len(),
            parse_upto(ls, k as nat) == Ok::<_, Failure>(statements(program@)),
        decreases parser.lines.len() - k,
    {
        let text = &parser.lines[k];
        match classify(text.as_str()) {
            Err(kind) => {
                let e = AsmError { kind, line: parser.source_line[k], text: text.clone() };
                proof {
                    lemma_parse_failure_stays(ls, (k + 1) as nat, ls.len());
                }
                return Err(e);
            },
            Ok(instruction) => {
                let ghost before = statements(program@);
                let st = Statement { line: parser.source_line[k], text: text.clone(), instruction };
                let ghost sv = st@;
                program.push(st);
                assert(statements(program@) =~= before.push(sv));
            },
        }
        k = k + 1;
    }
    Ok(program)
}

/// The first pass: binds each label to the address of the instruction
/// that follows it.
pub fn first_pass(program: &Vec<Statement>, initial: SymbolTable) -> (r: Result<SymbolTable, AsmError>)
    ensures
        match r {
            Ok(t) => labels_upto(statements(program@), initial@, program.len() as nat) == Ok::<
                _,
                Failure,
            >(t@),
            Err(e) => labels_upto(statements(program@), initial@, program.len() as nat) == Err::<
                Map<Seq<char>, usize>,
                _,
            >(e@),
        },
{
    let ghost p = statements(program@);
    let ghost t0 = initial@;
    let mut table = initial;
    let mut address: usize = 0;
    let mut k: usize = 0;
    while k < program.len()
        invariant
            p == statements(program@),
            t0 == initial@,
            k <= program.len(),
            address == instruction_count(p, k as nat),
            address <= k,
            labels_upto(p, t0, k as nat) == Ok::<_, Failure>(table@),
        decreases program.len() - k,
    {
        let s = &program[k];
        assert(p[k as int] == s@);
        match &s.instruction {
            Instruction::Label(name) => {
                if table.contains(name.as_str()) {
                    proof {
                        lemma_labels_failure_stays(p, t0, (k + 1) as nat, p.len());
                    }
                    return Err(fail(ErrorKind::DuplicateLabel, s));
                }
                table.add_entry(name.clone(), address);
            },
            _ => {
                address = address + 1;
            },
        }
        k = k + 1;
    }
    Ok(table)
}

/// The second pass: resolves each address operand, binding new variables
/// from address 16 on in order of first use, and encodes each instruction.
pub fn second_pass(program: &Vec<Statement>, initial: SymbolTable) -> (r: Result<Vec<String>, AsmError>)
    ensures
        match r {
            Ok(w) => encoding(statements(program@), initial@) == Ok::<_, Failure>(words(w@)),
            Err(e) => encoding(statements(program@), initial@) == Err::<Seq<Seq<char>>, _>(e@),
        },
{
    let ghost p = statements(program@);
    let ghost t0 = initial@;
    let mut table = initial;
    let mut next: usize = FIRST_VARIABLE;
    let mut out: Vec<String> = Vec::new();
    assert(words(out@) =~= Seq::empty());
    let mut k: usize = 0;
    while k < program.len()
        invariant
            p == statements(program@),
            t0 == initial@,
            k <= program.len(),
            next <= MAX_ADDRESS + 1,
            encode_upto(p, t0, k as nat) == Ok::<_, Failure>((table@, next as nat, words(out@))),
        decreases program.len() - k,
    {
        let s = &program[k];
        assert(p[k as int] == s@);
        let ghost before = words(out@);
        match &s.instruction {
            Instruction::Label(_) => {},
            Instruction::Address(sym) => {
                let cs = chars_of(sym.as_str());
                assert(cs@.subrange(0, cs.len() as int) =~= cs@);
                let word = if numeral(&cs, 0, cs.len()) {
                    match parse_decimal(&cs, 0, cs.len(), MAX_ADDRESS) {
                        Some(v) => encode_address(v),
                        None => Err(ErrorKind::AddressOutOfRange),
                    }
                } else if table.contains(sym.as_str()) {
                    encode_address(table.get_address(sym.as_str()))
                } else {
                    let w = encode_address(next);
                    if w.is_ok() {
                        table.add_entry(sym.clone(), next);
                        next = next + 1;
                    }
                    w
                };
                match word {
                    Ok(w) => out.push(w),
                    Err(kind) => {
                        proof {
                            lemma_encode_failure_stays(p, t0, (k + 1) as nat, p.len());
                        }
                        return Err(fail(kind, s));
                    },
                }
            },
            Instruction::Compute { dest, comp, jump } => {
                let d = match dest {
                    Some(d) => d.clone(),
                    None => String::new(),
                };
                let j = match jump {
                    Some(j) => j.clone(),
                    None => String::new(),
                };
                match encode_compute(d.as_str(), comp.as_str(), j.as_str()) {
                    Ok(w) => out.push(w),
                    Err(kind) => {
                        proof {
                            lemma_encode_failure_stays(p, t0, (k + 1) as nat, p.len());
                        }
                        return Err(fail(kind, s));
                    },
                }
            },
        }
        assert(words(out@) =~= before || words(out@) =~= before.push(out@.last()@));
        k = k + 1;
    }
    Ok(out)
}

/// Assembles a source text: one 16-character word of `0` and `1` per
/// instruction, in program order, or the first failure with its line.
pub fn assemble(source: &str) -> (r: Result<Vec<String>, AsmError>)
    ensures
        match r {
            Ok(w) => assembly(source@) == Ok::<_, Failure>(words(w@)),
            Err(e) => assembly(source@) == Err::<Seq<Seq<char>>, _>(e@),
        },
{
    let program = match parse_program(source) {
        Ok(p) => p,
        Err(e) => return Err(e),
    };
    let table = match first_pass(&program, SymbolTable::new()) {
        Ok(t) => t,
        Err(e) => return Err(e),
    };
    second_pass(&program, table)
}

} // verus!
