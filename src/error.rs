//! What can go wrong while assembling.
use vstd::prelude::*;

verus! {

/// The kinds of failure. Every failure is a function of the input alone.
#[derive(Debug, Clone, Copy, PartialEq, Eq, Structural)]
pub enum ErrorKind {
    /// An address operand or a label name that is empty or holds characters
    /// outside the symbol alphabet.
    MalformedSymbol,
    /// A label declaration without its closing parenthesis.
    UnterminatedLabel,
    /// A compute instruction whose computation field is empty.
    MissingComp,
    UnknownDest,
    UnknownComp,
    UnknownJump,
    /// An address above the 15-bit range.
    AddressOutOfRange,
    /// A label declared twice, or declared under a predefined name.
    DuplicateLabel,
    /// A lookup of a name that the symbol table does not hold.
    UnknownSymbol,
}

/// A failure, with the 1-based number of the source line where it arose and
/// the trimmed text of that line.
#[derive(Debug, Clone, PartialEq, Eq)]
pub struct AsmError {
    pub kind: ErrorKind,
    pub line: usize,
    pub text: String,
}

/// The mathematical value of an `AsmError`.
pub ghost struct Failure {
    pub kind: ErrorKind,
    pub line: nat,
    pub text: Seq<char>,
}

impl View for AsmError {
    type V = Failure;

    open spec fn view(&self) -> Failure {
        Failure { kind: self.kind, line: self.line as nat, text: self.text@ }
    }
}

/// The value of a result that carries text.
pub open spec fn text_result(r: Result<String, ErrorKind>) -> Result<Seq<char>, ErrorKind> {
    match r {
        Ok(s) => Ok(s@),
        Err(k) => Err(k),
    }
}

} // verus!
