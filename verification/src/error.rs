//! Why assembling a program can fail.

use vstd::prelude::*;

verus! {

/// What is wrong with a source line.
#[derive(Clone, Copy, Debug, PartialEq, Eq, Structural)]
pub enum ErrorKind {
    /// The operand of `@` is neither an integer literal nor a symbol.
    MalformedOperand,
    /// A line that opens with `(` is not of the form `(SYMBOL)`.
    MalformedLabel,
    /// A destination, computation or jump mnemonic is not in the tables.
    UnknownMnemonic,
    /// An address does not fit in 15 unsigned bits.
    AddressOutOfRange,
}

/// A failure, with the number of the source line that caused it (from 1).
#[derive(Clone, Copy, Debug, PartialEq, Eq, Structural)]
pub struct AsmError {
    pub line: usize,
    pub kind: ErrorKind,
}

} // verus!
