//! The classifier: from source text to cleaned lines, and from a cleaned
//! line to one of the three kinds of instruction.
use vstd::prelude::*;

use crate::error::ErrorKind;
use crate::text::{
    chars_of, find, first_index, is_numeral, is_symbol_name, lines_of, numeral, string_of,
    symbol_name, trim, trimmed,
};

verus! {

/// A line that carries no instruction: blank, or a comment opened by `//`.
pub open spec fn is_ignored(t: Seq<char>) -> bool {
    t.len() == 0 || (t.len() >= 2 && t[0] == '/' && t[1] == '/')
}

/// Among the first `n` lines of `ls`, those that carry an instruction:
/// each trimmed, and paired with its 1-based line number.
pub open spec fn kept(ls: Seq<Seq<char>>, n: nat) -> Seq<(nat, Seq<char>)>
    decreases n,
{
    if n == 0 {
        Seq::empty()
    } else {
        let prev = kept(ls, (n - 1) as nat);
        let t = trim(ls[n - 1]);
        if is_ignored(t) {
            prev
        } else {
            prev.push((n, t))
        }
    }
}

/// The lines of a source text that carry an instruction, trimmed and
/// numbered from 1.
pub open spec fn source_lines(s: Seq<char>) -> Seq<(nat, Seq<char>)> {
    kept(lines_of(s), lines_of(s).len())
}

/// The three kinds of line.
#[allow(non_camel_case_types)]
#[derive(Debug, Clone, Copy, PartialEq, Eq, Structural)]
pub enum InstructionType {
    /// `@` and an address or symbol.
    AINSTRUCTION,
    /// A computation, with optional destination and jump.
    CINSTRUCTION,
    /// `(` a label `)`.
    LINSTRUCTION,
}

pub open spec fn kind_of(line: Seq<char>) -> InstructionType {
    if line.len() > 0 && line[0] == '@' {
        InstructionType::AINSTRUCTION
    } else if line.len() > 0 && line[0] == '(' {
        InstructionType::LINSTRUCTION
    } else {
        InstructionType::CINSTRUCTION
    }
}

/// A compute line split at its first `=`: what stands before it, where
/// there is one, and what follows.
pub open spec fn split_dest(line: Seq<char>) -> (Option<Seq<char>>, Seq<char>) {
    match first_index(line, '=') {
        Some(i) => (Some(line.take(i)), line.skip(i + 1)),
        None => (None, line),
    }
}

/// The rest of a compute line split at its first `;`: what stands before
/// it, and what follows, where there is one.
pub open spec fn split_jump(rest: Seq<char>) -> (Seq<char>, Option<Seq<char>>) {
    match first_index(rest, ';') {
        Some(j) => (rest.take(j), Some(rest.skip(j + 1))),
        None => (rest, None),
    }
}

/// The destination, computation and jump fields of a compute line.
pub open spec fn compute_fields(line: Seq<char>) -> (
    Option<Seq<char>>,
    Seq<char>,
    Option<Seq<char>>,
) {
    let (dest, rest) = split_dest(line);
    let (comp, jump) = split_jump(rest);
    (dest, comp, jump)
}

/// An instruction as written, its fields not yet encoded.
#[derive(Debug, Clone, PartialEq, Eq)]
pub enum Instruction {
    /// Loads an address, given as a numeral or a symbol.
    Address(String),
    /// A computation, with its optional destination and jump.
    Compute { dest: Option<String>, comp: String, jump: Option<String> },
    /// Names the address of the next instruction.
    Label(String),
}

pub ghost enum InstructionView {
    Address(Seq<char>),
    Compute { dest: Option<Seq<char>>, comp: Seq<char>, jump: Option<Seq<char>> },
    Label(Seq<char>),
}

impl View for Instruction {
    type V = InstructionView;

    open spec fn view(&self) -> InstructionView {
        match self {
            Instruction::Address(s) => InstructionView::Address(s@),
            Instruction::Compute { dest, comp, jump } => InstructionView::Compute {
                dest: dest.deep_view(),
                comp: comp@,
                jump: jump.deep_view(),
            },
            Instruction::Label(s) => InstructionView::Label(s@),
        }
    }
}

/// The instruction that a cleaned line holds, or why it holds none.
pub open spec fn classification(line: Seq<char>) -> Result<InstructionView, ErrorKind> {
    match kind_of(line) {
        InstructionType::AINSTRUCTION => {
            let s = line.drop_first();
            if is_numeral(s) || is_symbol_name(s) {
                Ok(InstructionView::Address(s))
            } else {
                Err(ErrorKind::MalformedSymbol)
            }
        },
        InstructionType::LINSTRUCTION => {
            if line.len() < 2 || line.last() != ')' {
                Err(ErrorKind::UnterminatedLabel)
            } else if !is_symbol_name(line.subrange(1, line.len() - 1)) {
                Err(ErrorKind::MalformedSymbol)
            } else {
                Ok(InstructionView::Label(line.subrange(1, line.len() - 1)))
            }
        },
        InstructionType::CINSTRUCTION => {
            let (dest, comp, jump) = compute_fields(line);
            if comp.len() == 0 {
                Err(ErrorKind::MissingComp)
            } else {
                Ok(InstructionView::Compute { dest, comp, jump })
            }
        },
    }
}

/// The symbol of a line: the operand of an address line or the name of a
/// label line, with the classifier's failure where the line is malformed;
/// the empty text on a compute line.
pub open spec fn symbol_of(line: Seq<char>) -> Result<Seq<char>, ErrorKind> {
    if kind_of(line) == InstructionType::CINSTRUCTION {
        Ok(Seq::empty())
    } else {
        match classification(line) {
            Ok(InstructionView::Address(s)) => Ok(s),
            Ok(InstructionView::Label(s)) => Ok(s),
            Ok(InstructionView::Compute { .. }) => Ok(Seq::empty()),
            Err(k) => Err(k),
        }
    }
}

/// The computation field of a line: on a compute line, the field, or
/// `MissingComp` where it is empty; the empty text on the other kinds.
pub open spec fn comp_of(line: Seq<char>) -> Result<Seq<char>, ErrorKind> {
    if kind_of(line) != InstructionType::CINSTRUCTION {
        Ok(Seq::empty())
    } else if compute_fields(line).1.len() == 0 {
        Err(ErrorKind::MissingComp)
    } else {
        Ok(compute_fields(line).1)
    }
}

pub open spec fn result_view(r: Result<Instruction, ErrorKind>) -> Result<
    InstructionView,
    ErrorKind,
> {
    match r {
        Ok(i) => Ok(i@),
        Err(k) => Err(k),
    }
}

/// Lines are kept by a prefix of the lines alone.
proof fn lemma_kept_prefix(a: Seq<Seq<char>>, b: Seq<Seq<char>>, n: nat)
    requires
        n <= a.len(),
        n <= b.len(),
        forall|k: int| 0 <= k < n ==> a[k] == b[k],
    ensures
        kept(a, n) == kept(b, n),
    decreases n,
{
    if n > 0 {
        lemma_kept_prefix(a, b, (n - 1) as nat);
    }
}

proof fn lemma_lines_nonempty(s: Seq<char>)
    ensures
        lines_of(s).len() >= 1,
    decreases s.len(),
{
    if s.len() > 0 {
        lemma_lines_nonempty(s.drop_last());
    }
}

fn kind(cs: &Vec<char>) -> (r: InstructionType)
    ensures
        r == kind_of(cs@),
{
    if cs.len() > 0 && cs[0] == '@' {
        InstructionType::AINSTRUCTION
    } else if cs.len() > 0 && cs[0] == '(' {
        InstructionType::LINSTRUCTION
    } else {
        InstructionType::CINSTRUCTION
    }
}

/// The line split at its first `=`; the second value is where the rest starts.
fn dest_part(cs: &Vec<char>) -> (r: (Option<String>, usize))
    ensures
        r.1 <= cs.len(),
        (r.0.deep_view(), cs@.subrange(r.1 as int, cs.len() as int)) == split_dest(cs@),
{
    let n = cs.len();
    assert(cs@.subrange(0, n as int) =~= cs@);
    match find(cs, 0, n, '=') {
        Some(i) => {
            assert(cs@.skip(i + 1) =~= cs@.subrange(i + 1, n as int));
            assert(cs@.take(i as int) =~= cs@.subrange(0, i as int));
            (Some(string_of(cs, 0, i)), i + 1)
        },
        None => (None, 0),
    }
}

/// `cs[start..]` split at its first `;`.
fn jump_part(cs: &Vec<char>, start: usize) -> (r: (String, Option<String>))
    requires
        start <= cs.len(),
    ensures
        (r.0@, r.1.deep_view()) == split_jump(cs@.subrange(start as int, cs.len() as int)),
{
    let n = cs.len();
    let ghost rest = cs@.subrange(start as int, n as int);
    match find(cs, start, n, ';') {
        Some(j) => {
            assert(rest.take(j as int) =~= cs@.subrange(start as int, start + j));
            assert(rest.skip(j + 1) =~= cs@.subrange(start + j + 1, n as int));
            (string_of(cs, start, start + j), Some(string_of(cs, start + j + 1, n)))
        },
        None => (string_of(cs, start, n), None),
    }
}

/// The fields of a compute line.
fn fields(cs: &Vec<char>) -> (r: (Option<String>, String, Option<String>))
    ensures
        (r.0.deep_view(), r.1@, r.2.deep_view()) == compute_fields(cs@),
{
    let (dest, start) = dest_part(cs);
    let (comp, jump) = jump_part(cs, start);
    (dest, comp, jump)
}

/// The instruction that `line` holds, or why it holds none.
pub fn classify(line: &str) -> (r: Result<Instruction, ErrorKind>)
    ensures
        result_view(r) == classification(line@),
{
    let cs = chars_of(line);
    let n = cs.len();
    match kind(&cs) {
        InstructionType::AINSTRUCTION => {
            assert(cs@.drop_first() =~= cs@.subrange(1, n as int));
            if numeral(&cs, 1, n) || symbol_name(&cs, 1, n) {
                Ok(Instruction::Address(string_of(&cs, 1, n)))
            } else {
                Err(ErrorKind::MalformedSymbol)
            }
        },
        InstructionType::LINSTRUCTION => {
            if n < 2 || cs[n - 1] != ')' {
                Err(ErrorKind::UnterminatedLabel)
            } else if !symbol_name(&cs, 1, n - 1) {
                Err(ErrorKind::MalformedSymbol)
            } else {
                Ok(Instruction::Label(string_of(&cs, 1, n - 1)))
            }
        },
        InstructionType::CINSTRUCTION => {
            let (dest, comp, jump) = fields(&cs);
            if comp.as_str().is_empty() {
                Err(ErrorKind::MissingComp)
            } else {
                Ok(Instruction::Compute { dest, comp, jump })
            }
        },
    }
}

/// Whether a trimmed line carries no instruction.
fn should_ignore(line: &str) -> (r: bool)
    ensures
        r == is_ignored(line@),
{
    let cs = chars_of(line);
    cs.len() < 1 || (cs.len() >= 2 && cs[0] == '/' && cs[1] == '/')
}

/// Numbered lines as a sequence of pairs.
pub open spec fn numbered(lines: Seq<String>, numbers: Seq<usize>) -> Seq<(nat, Seq<char>)> {
    Seq::new(lines.len(), |k: int| (numbers[k] as nat, lines[k]@))
}

/// The cleaned lines of a source text, and a cursor on the current one.
pub struct Parser {
    /// The lines that carry an instruction, trimmed.
    pub lines: Vec<String>,
    /// The index of the current line.
    pub line_number: usize,
    /// For each line, its 1-based number in the source text.
    pub source_line: Vec<usize>,
}

impl Parser {
    pub open spec fn wf(&self) -> bool {
        &&& self.lines.len() == self.source_line.len()
        &&& (self.line_number < self.lines.len() || self.line_number == 0)
    }

    /// The numbered lines.
    pub open spec fn entries(&self) -> Seq<(nat, Seq<char>)> {
        numbered(self.lines@, self.source_line@)
    }

    /// The text of the current line.
    pub open spec fn current(&self) -> Seq<char> {
        self.lines@[self.line_number as int]@
    }

    /// Keeps `cs[lo..hi]`, trimmed, as line `index + 1` unless it carries no
    /// instruction.
    fn keep_line(
        cs: &Vec<char>,
        lo: usize,
        hi: usize,
        index: usize,
        lines: &mut Vec<String>,
        numbers: &mut Vec<usize>,
    )
        requires
            lo <= hi <= cs.len(),
            index <= lo,
            old(lines).len() == old(numbers).len(),
        ensures
            final(lines).len() == final(numbers).len(),
            numbered(final(lines)@, final(numbers)@) == ({
                let t = trim(cs@.subrange(lo as int, hi as int));
                if is_ignored(t) {
                    numbered(old(lines)@, old(numbers)@)
                } else {
                    numbered(old(lines)@, old(numbers)@).push(((index + 1) as nat, t))
                }
            }),
    {
        let (a, b) = trimmed(cs, lo, hi);
        let t = string_of(cs, a, b);
        if !should_ignore(t.as_str()) {
            let ghost before = numbered(lines@, numbers@);
            lines.push(t);
            numbers.push(index + 1);
            assert(numbered(lines@, numbers@) =~= before.push(((index + 1) as nat, t@)));
        }
    }

    /// Splits `contents` into lines, trims them, and keeps those that carry
    /// an instruction; the cursor stands on the first.
    pub fn new(contents: String) -> (p: Parser)
        ensures
            p.wf(),
            p.line_number == 0,
            p.entries() == source_lines(contents@),
    {
        let cs = chars_of(contents.as_str());
        let mut lines: Vec<String> = Vec::new();
        let mut numbers: Vec<usize> = Vec::new();
        let mut start: usize = 0;
        let mut index: usize = 0;
        let mut i: usize = 0;
        assert(cs@.take(0) =~= Seq::<char>::empty());
        while i < cs.len()
            invariant
                start <= i <= cs.len(),
                index <= start,
                lines.len() == numbers.len(),
                lines_of(cs@.take(i as int)).len() == index + 1,
                lines_of(cs@.take(i as int))[index as int] == cs@.subrange(start as int, i as int),
                numbered(lines@, numbers@) == kept(lines_of(cs@.take(i as int)), index as nat),
            decreases cs.len() - i,
        {
            let ghost before = lines_of(cs@.take(i as int));
            let ghost after = lines_of(cs@.take(i + 1));
            assert(cs@.take(i + 1).drop_last() =~= cs@.take(i as int));
            proof {
                lemma_lines_nonempty(cs@.take(i as int));
                lemma_kept_prefix(before, after, index as nat);
            }
            if cs[i] == '\n' {
                Self::keep_line(&cs, start, i, index, &mut lines, &mut numbers);
                index = index + 1;
                start = i + 1;
                assert(cs@.subrange(start as int, start as int) =~= Seq::<char>::empty());
            } else {
                assert(cs@.subrange(start as int, i + 1) =~= cs@.subrange(
                    start as int,
                    i as int,
                ).push(cs@[i as int]));
            }
            i = i + 1;
        }
        Self::keep_line(&cs, start, cs.len(), index, &mut lines, &mut numbers);
        assert(cs@.take(cs.len() as int) =~= cs@);
        Parser { lines, line_number: 0, source_line: numbers }
    }

    /// The kind of the current line.
    pub fn instruction_type(&self) -> (r: InstructionType)
        requires
            self.line_number < self.lines.len(),
        ensures
            r == kind_of(self.current()),
    {
        kind(&chars_of(self.lines[self.line_number].as_str()))
    }

    /// Whether a line follows the current one.
    pub fn has_more_lines(&self) -> (r: bool)
        ensures
            r == (self.line_number + 1 < self.lines.len()),
    {
        self.line_number < self.lines.len() && self.line_number + 1 < self.lines.len()
    }

    /// Moves to the next line, where there is one.
    pub fn advance(&mut self)
        requires
            old(self).wf(),
        ensures
            final(self).wf(),
            final(self).lines == old(self).lines,
            final(self).source_line == old(self).source_line,
            final(self).line_number == if old(self).line_number + 1 < old(self).lines.len() {
                old(self).line_number + 1
            } else {
                old(self).line_number as int
            },
    {
        if self.has_more_lines() {
            self.line_number = self.line_number + 1;
        }
    }

    /// What follows `@` on an address line, or the name inside a label
    /// line, with `MalformedSymbol` or `UnterminatedLabel` where the line
    /// does not classify; empty on a compute line.
    pub fn symbol(&self) -> (r: Result<String, ErrorKind>)
        requires
            self.line_number < self.lines.len(),
        ensures
            crate::error::text_result(r) == symbol_of(self.current()),
    {
        let line = self.lines[self.line_number].as_str();
        if kind(&chars_of(line)) == InstructionType::CINSTRUCTION {
            return Ok(String::new());
        }
        match classify(line) {
            Ok(Instruction::Address(s)) => Ok(s),
            Ok(Instruction::Label(s)) => Ok(s),
            Ok(Instruction::Compute { .. }) => Ok(String::new()),
            Err(k) => Err(k),
        }
    }

    /// The destination of a compute line; empty where it has none, and on
    /// the other kinds of line.
    pub fn dest(&self) -> (r: String)
        requires
            self.line_number < self.lines.len(),
        ensures
            r@ == if kind_of(self.current()) == InstructionType::CINSTRUCTION {
                crate::code::or_empty(compute_fields(self.current()).0)
            } else {
                Seq::empty()
            },
    {
        let cs = chars_of(self.lines[self.line_number].as_str());
        if kind(&cs) != InstructionType::CINSTRUCTION {
            return String::new();
        }
        match fields(&cs).0 {
            Some(d) => d,
            None => String::new(),
        }
    }

    /// The computation of a compute line, or `MissingComp` where it is
    /// empty; empty on the other kinds of line.
    pub fn comp(&self) -> (r: Result<String, ErrorKind>)
        requires
            self.line_number < self.lines.len(),
        ensures
            crate::error::text_result(r) == comp_of(self.current()),
    {
        let cs = chars_of(self.lines[self.line_number].as_str());
        if kind(&cs) != InstructionType::CINSTRUCTION {
            return Ok(String::new());
        }
        let comp = fields(&cs).1;
        if comp.as_str().is_empty() {
            Err(ErrorKind::MissingComp)
        } else {
            Ok(comp)
        }
    }

    /// The jump of a compute line; empty where it has none, and on the
    /// other kinds of line.
    pub fn jump(&self) -> (r: String)
        requires
            self.line_number < self.lines.len(),
        ensures
            r@ == if kind_of(self.current()) == InstructionType::CINSTRUCTION {
                crate::code::or_empty(compute_fields(self.current()).2)
            } else {
                Seq::empty()
            },
    {
        let cs = chars_of(self.lines[self.line_number].as_str());
        if kind(&cs) != InstructionType::CINSTRUCTION {
            return String::new();
        }
        match fields(&cs).2 {
            Some(j) => j,
            None => String::new(),
        }
    }
}

} // verus!
