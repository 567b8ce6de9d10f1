//! The encoder: the fixed tables from mnemonics to bit fields, and the
//! encoding of whole instructions.
use vstd::prelude::*;

use crate::error::{ErrorKind, text_result};
use crate::symbol_table::{SymbolTable, predefined};
use crate::text::{
    chars_of, decimal, is_numeral, is_symbol_name, is_word, numeral, parse_decimal, push_char,
    symbol_name,
};

verus! {

/// The largest address that an address instruction can load.
pub const MAX_ADDRESS: usize = 32767;

/// The lowest `width` bits of `v` as `'0'` and `'1'`, most significant first.
pub open spec fn bits(v: nat, width: nat) -> Seq<char>
    decreases width,
{
    if width == 0 {
        Seq::empty()
    } else {
        bits(v / 2, (width - 1) as nat).push(if v % 2 == 1 { '1' } else { '0' })
    }
}

/// The word of an address instruction that loads `a`: a `0` and then the
/// address in fifteen bits.
pub open spec fn address_word(a: nat) -> Seq<char> {
    seq!['0'] + bits(a, 15)
}

/// The encoding of an address instruction that loads `a`, which must be in range.
pub open spec fn address_encoding(a: nat) -> Result<Seq<char>, ErrorKind> {
    if a <= MAX_ADDRESS {
        Ok(address_word(a))
    } else {
        Err(ErrorKind::AddressOutOfRange)
    }
}

pub open spec fn is_dest_letter(c: char) -> bool {
    c == 'A' || c == 'D' || c == 'M'
}

/// The destination field: absent (empty or `null`) is 0; otherwise a set
/// of the letters `A`, `D`, `M`, each at most once and in any order, sets
/// bit 2, 1 and 0 respectively.
pub open spec fn dest_code(m: Seq<char>) -> Option<nat> {
    if m.len() == 0 || m == "null"@ {
        Some(0)
    } else if (forall|i: int| 0 <= i < m.len() ==> is_dest_letter(#[trigger] m[i]))
        && m.no_duplicates() {
        Some(
            (if m.contains('A') { 4nat } else { 0nat }) + (if m.contains('D') { 2nat } else { 0nat })
                + (if m.contains('M') { 1nat } else { 0nat }),
        )
    } else {
        None
    }
}

/// The jump field: absent (empty or `null`) is 0, then the seven
/// conditions in their fixed order.
pub open spec fn jump_code(m: Seq<char>) -> Option<nat> {
    if m.len() == 0 || m == "null"@ { Some(0) }
    else if m == "JGT"@ { Some(1) }
    else if m == "JEQ"@ { Some(2) }
    else if m == "JGE"@ { Some(3) }
    else if m == "JLT"@ { Some(4) }
    else if m == "JNE"@ { Some(5) }
    else if m == "JLE"@ { Some(6) }
    else if m == "JMP"@ { Some(7) }
    else { None }
}

/// The computation field, seven bits: the first says whether the memory
/// operand `M` is read in place of `A`, the other six select the function.
pub open spec fn comp_code(m: Seq<char>) -> Option<nat> {
    if m == "0"@ { Some(0b0101010) }
    else if m == "1"@ { Some(0b0111111) }
    else if m == "-1"@ { Some(0b0111010) }
    else if m == "D"@ { Some(0b0001100) }
    else if m == "A"@ { Some(0b0110000) }
    else if m == "M"@ { Some(0b1110000) }
    else if m == "!D"@ { Some(0b0001101) }
    else if m == "!A"@ { Some(0b0110001) }
    else if m == "!M"@ { Some(0b1110001) }
    else if m == "-D"@ { Some(0b0001111) }
    else if m == "-A"@ { Some(0b0110011) }
    else if m == "-M"@ { Some(0b1110011) }
    else if m == "D+1"@ { Some(0b0011111) }
    else if m == "A+1"@ { Some(0b0110111) }
    else if m == "M+1"@ { Some(0b1110111) }
    else if m == "D-1"@ { Some(0b0001110) }
    else if m == "A-1"@ { Some(0b0110010) }
    else if m == "M-1"@ { Some(0b1110010) }
    else if m == "D+A"@ { Some(0b0000010) }
    else if m == "D+M"@ { Some(0b1000010) }
    else if m == "D-A"@ { Some(0b0010011) }
    else if m == "D-M"@ { Some(0b1010011) }
    else if m == "A-D"@ { Some(0b0000111) }
    else if m == "M-D"@ { Some(0b1000111) }
    else if m == "D&A"@ { Some(0b0000000) }
    else if m == "D&M"@ { Some(0b1000000) }
    else if m == "D|A"@ { Some(0b0010101) }
    else if m == "D|M"@ { Some(0b1010101) }
    else { None }
}

/// The three bits of a destination mnemonic.
pub open spec fn dest_bits(m: Seq<char>) -> Result<Seq<char>, ErrorKind> {
    match dest_code(m) {
        Some(c) => Ok(bits(c, 3)),
        None => Err(ErrorKind::UnknownDest),
    }
}

/// The seven bits of a computation mnemonic.
pub open spec fn comp_bits(m: Seq<char>) -> Result<Seq<char>, ErrorKind> {
    match comp_code(m) {
        Some(c) => Ok(bits(c, 7)),
        None => Err(ErrorKind::UnknownComp),
    }
}

/// The three bits of a jump mnemonic.
pub open spec fn jump_bits(m: Seq<char>) -> Result<Seq<char>, ErrorKind> {
    match jump_code(m) {
        Some(c) => Ok(bits(c, 3)),
        None => Err(ErrorKind::UnknownJump),
    }
}

/// A field that may be absent: absence reads as the empty mnemonic.
pub open spec fn or_empty(m: Option<Seq<char>>) -> Seq<char> {
    match m {
        Some(s) => s,
        None => Seq::empty(),
    }
}

/// The word of a compute instruction: `111`, then the computation, the
/// destination and the jump fields. The fields are checked in the order
/// destination, computation, jump.
pub open spec fn compute_encoding(
    dest: Option<Seq<char>>,
    comp: Seq<char>,
    jump: Option<Seq<char>>,
) -> Result<Seq<char>, ErrorKind> {
    match (dest_code(or_empty(dest)), comp_code(comp), jump_code(or_empty(jump))) {
        (None, _, _) => Err(ErrorKind::UnknownDest),
        (Some(_), None, _) => Err(ErrorKind::UnknownComp),
        (Some(_), Some(_), None) => Err(ErrorKind::UnknownJump),
        (Some(d), Some(c), Some(j)) => Ok(
            seq!['1', '1', '1'] + bits(c, 7) + bits(d, 3) + bits(j, 3),
        ),
    }
}

/// The address that an operand names, where symbols are looked up in `table`.
pub open spec fn operand_value(table: Map<Seq<char>, usize>, s: Seq<char>) -> Result<
    nat,
    ErrorKind,
> {
    if is_numeral(s) {
        Ok(decimal(s))
    } else if !is_symbol_name(s) {
        Err(ErrorKind::MalformedSymbol)
    } else if table.contains_key(s) {
        Ok(table[s] as nat)
    } else {
        Err(ErrorKind::UnknownSymbol)
    }
}

/// The encoding of an address instruction whose operand is `s`.
pub open spec fn operand_encoding(table: Map<Seq<char>, usize>, s: Seq<char>) -> Result<
    Seq<char>,
    ErrorKind,
> {
    match operand_value(table, s) {
        Ok(v) => address_encoding(v),
        Err(k) => Err(k),
    }
}

pub proof fn lemma_bits_len(v: nat, width: nat)
    ensures
        bits(v, width).len() == width,
    decreases width,
{
    if width > 0 {
        lemma_bits_len(v / 2, (width - 1) as nat);
    }
}

/// `v` in `width` bits.
fn binary(v: u32, width: u32) -> (r: String)
    ensures
        r@ == bits(v as nat, width as nat),
    decreases width,
{
    if width == 0 {
        String::new()
    } else {
        let mut r = binary(v / 2, width - 1);
        push_char(&mut r, if v % 2 == 1 { '1' } else { '0' });
        r
    }
}

/// The word of an address instruction, or `AddressOutOfRange` above 32767.
pub fn encode_address(address: usize) -> (r: Result<String, ErrorKind>)
    ensures
        text_result(r) == address_encoding(address as nat),
{
    if address <= MAX_ADDRESS {
        let mut w = String::new();
        push_char(&mut w, '0');
        let b = binary(address as u32, 15);
        w.append(b.as_str());
        assert(w@ =~= address_word(address as nat));
        Ok(w)
    } else {
        Err(ErrorKind::AddressOutOfRange)
    }
}

fn dest_value(m: &Vec<char>) -> (r: Option<u32>)
    ensures
        match r {
            Some(c) => dest_code(m@) == Some(c as nat),
            None => dest_code(m@) is None,
        },
{
    if m.len() == 0 || is_word(m, "null") {
        return Some(0);
    }
    let mut a = false;
    let mut d = false;
    let mut s = false;
    let mut i: usize = 0;
    while i < m.len()
        invariant
            i <= m.len(),
            m@.len() > 0,
            m@ != "null"@,
            a == m@.take(i as int).contains('A'),
            d == m@.take(i as int).contains('D'),
            s == m@.take(i as int).contains('M'),
            forall|k: int| 0 <= k < i ==> is_dest_letter(#[trigger] m@[k]),
            m@.take(i as int).no_duplicates(),
        decreases m.len() - i,
    {
        let c = m[i];
        let ghost before = m@.take(i as int);
        assert(m@.take(i + 1) =~= before.push(c));
        if c == 'A' && !a {
            a = true;
        } else if c == 'D' && !d {
            d = true;
        } else if c == 'M' && !s {
            s = true;
        } else {
            proof {
                if is_dest_letter(c) {
                    let k = choose|k: int| 0 <= k < before.len() && before[k] == c;
                    assert(m@[k] == m@[i as int] && k != i);
                    assert(!m@.no_duplicates());
                } else {
                    assert(!is_dest_letter(m@[i as int]));
                }
            }
            return None;
        }
        proof {
            let after = m@.take(i + 1);
            assert forall|x: char| after.contains(x) <==> (before.contains(x) || x == c) by {
                if after.contains(x) {
                    let k = choose|k: int| 0 <= k < after.len() && after[k] == x;
                    if k < before.len() {
                        assert(before[k] == x);
                    }
                }
                if before.contains(x) {
                    let k = choose|k: int| 0 <= k < before.len() && before[k] == x;
                    assert(after[k] == x);
                }
                if x == c {
                    assert(after[i as int] == x);
                }
            }
        }
        i = i + 1;
    }
    assert(m@.take(m.len() as int) =~= m@);
    Some((if a { 4u32 } else { 0 }) + (if d { 2u32 } else { 0 }) + (if s { 1u32 } else { 0 }))
}

fn jump_value(m: &Vec<char>) -> (r: Option<u32>)
    ensures
        match r {
            Some(c) => jump_code(m@) == Some(c as nat),
            None => jump_code(m@) is None,
        },
{
    if m.len() == 0 || is_word(m, "null") { Some(0) }
    else if is_word(m, "JGT") { Some(1) }
    else if is_word(m, "JEQ") { Some(2) }
    else if is_word(m, "JGE") { Some(3) }
    else if is_word(m, "JLT") { Some(4) }
    else if is_word(m, "JNE") { Some(5) }
    else if is_word(m, "JLE") { Some(6) }
    else if is_word(m, "JMP") { Some(7) }
    else { None }
}

fn comp_value(m: &Vec<char>) -> (r: Option<u32>)
    ensures
        match r {
            Some(c) => comp_code(m@) == Some(c as nat),
            None => comp_code(m@) is None,
        },
{
    if is_word(m, "0") { Some(0b0101010) }
    else if is_word(m, "1") { Some(0b0111111) }
    else if is_word(m, "-1") { Some(0b0111010) }
    else if is_word(m, "D") { Some(0b0001100) }
    else if is_word(m, "A") { Some(0b0110000) }
    else if is_word(m, "M") { Some(0b1110000) }
    else if is_word(m, "!D") { Some(0b0001101) }
    else if is_word(m, "!A") { Some(0b0110001) }
    else if is_word(m, "!M") { Some(0b1110001) }
    else if is_word(m, "-D") { Some(0b0001111) }
    else if is_word(m, "-A") { Some(0b0110011) }
    else if is_word(m, "-M") { Some(0b1110011) }
    else if is_word(m, "D+1") { Some(0b0011111) }
    else if is_word(m, "A+1") { Some(0b0110111) }
    else if is_word(m, "M+1") { Some(0b1110111) }
    else if is_word(m, "D-1") { Some(0b0001110) }
    else if is_word(m, "A-1") { Some(0b0110010) }
    else if is_word(m, "M-1") { Some(0b1110010) }
    else if is_word(m, "D+A") { Some(0b0000010) }
    else if is_word(m, "D+M") { Some(0b1000010) }
    else if is_word(m, "D-A") { Some(0b0010011) }
    else if is_word(m, "D-M") { Some(0b1010011) }
    else if is_word(m, "A-D") { Some(0b0000111) }
    else if is_word(m, "M-D") { Some(0b1000111) }
    else if is_word(m, "D&A") { Some(0b0000000) }
    else if is_word(m, "D&M") { Some(0b1000000) }
    else if is_word(m, "D|A") { Some(0b0010101) }
    else if is_word(m, "D|M") { Some(0b1010101) }
    else { None }
}

/// The three destination bits of `mnemonic`; the empty mnemonic and `null`
/// give `000`.
pub fn dest(mnemonic: &str) -> (r: Result<String, ErrorKind>)
    ensures
        text_result(r) == dest_bits(mnemonic@),
{
    match dest_value(&chars_of(mnemonic)) {
        Some(c) => Ok(binary(c, 3)),
        None => Err(ErrorKind::UnknownDest),
    }
}

/// The seven computation bits of `mnemonic`.
pub fn comp(mnemonic: &str) -> (r: Result<String, ErrorKind>)
    ensures
        text_result(r) == comp_bits(mnemonic@),
{
    match comp_value(&chars_of(mnemonic)) {
        Some(c) => Ok(binary(c, 7)),
        None => Err(ErrorKind::UnknownComp),
    }
}

/// The three jump bits of `mnemonic`; the empty mnemonic and `null` give `000`.
pub fn jump(mnemonic: &str) -> (r: Result<String, ErrorKind>)
    ensures
        text_result(r) == jump_bits(mnemonic@),
{
    match jump_value(&chars_of(mnemonic)) {
        Some(c) => Ok(binary(c, 3)),
        None => Err(ErrorKind::UnknownJump),
    }
}

/// The word of a compute instruction with the given fields.
pub fn encode_compute(dest: &str, comp: &str, jump: &str) -> (r: Result<String, ErrorKind>)
    ensures
        text_result(r) == compute_encoding(Some(dest@), comp@, Some(jump@)),
{
    let d = dest_value(&chars_of(dest));
    let c = comp_value(&chars_of(comp));
    let j = jump_value(&chars_of(jump));
    match (d, c, j) {
        (None, _, _) => Err(ErrorKind::UnknownDest),
        (Some(_), None, _) => Err(ErrorKind::UnknownComp),
        (Some(_), Some(_), None) => Err(ErrorKind::UnknownJump),
        (Some(d), Some(c), Some(j)) => {
            let mut w = String::new();
            push_char(&mut w, '1');
            push_char(&mut w, '1');
            push_char(&mut w, '1');
            w.append(binary(c, 7).as_str());
            w.append(binary(d, 3).as_str());
            w.append(binary(j, 3).as_str());
            assert(w@ =~= seq!['1', '1', '1'] + bits(c as nat, 7) + bits(d as nat, 3) + bits(
                j as nat,
                3,
            ));
            Ok(w)
        },
    }
}

/// The word of an address instruction whose operand is `a_instruction`: a
/// number, or a predefined symbol. Other symbols give `UnknownSymbol`.
pub fn variable(a_instruction: &str) -> (r: Result<String, ErrorKind>)
    ensures
        text_result(r) == operand_encoding(predefined(), a_instruction@),
{
    let cs = chars_of(a_instruction);
    assert(cs@.subrange(0, cs.len() as int) =~= cs@);
    if numeral(&cs, 0, cs.len()) {
        match parse_decimal(&cs, 0, cs.len(), MAX_ADDRESS) {
            Some(v) => encode_address(v),
            None => Err(ErrorKind::AddressOutOfRange),
        }
    } else if !symbol_name(&cs, 0, cs.len()) {
        Err(ErrorKind::MalformedSymbol)
    } else {
        let table = SymbolTable::new();
        match table.resolve(a_instruction) {
            Ok(a) => encode_address(a),
            Err(k) => Err(k),
        }
    }
}

} // verus!
