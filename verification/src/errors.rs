//! The ways in which a compilation can fail.

use vstd::prelude::*;

verus! {

/// Why a compilation was abandoned. The first failure ends the compilation;
/// nothing is recovered locally.
#[derive(Clone, Copy, Debug, PartialEq, Eq, Structural)]
pub enum ErrorKind {
    /// The source text does not match the grammar.
    SyntaxError,
    /// A name was declared a second time where that is not allowed.
    VariableAlreadyExists,
    /// A variable was read or written before it was declared.
    UnknownVariable,
}

/// A text that does not match the grammar.
#[derive(Clone, Copy, Debug, PartialEq, Eq)]
pub struct SyntaxError<'a> {
    /// The input from the first byte that fits no rule to the end.
    pub remaining: &'a [u8],
}

} // verus!
