//! Fatal translation errors. Every error aborts the run that raised it;
//! callers discard any partial output.

use vstd::prelude::*;

verus! {

/// What went wrong.
#[derive(Clone, Copy, Debug, PartialEq, Eq, Structural)]
pub enum ErrorKind {
    /// A VM command lacks a required operand, or an operand that must be
    /// a decimal number cannot be read as one.
    MissingOperand,
    /// A VM line reached the emitter without a recognizable command word.
    UnknownMnemonic,
    /// A push or pop names a memory segment outside the eight known ones.
    UnknownSegment,
    /// An arithmetic command names an operation outside the nine known
    /// ones.
    UnsupportedOperation,
    /// An address operand does not fit in the 15 bits of an address
    /// instruction, or the variable allocator ran past that range.
    AddressOutOfRange,
    /// A compute instruction's fields are not in the fixed comp, dest and
    /// jump tables.
    MalformedComputeInstruction,
    /// A symbol was read back that was never bound; the allocator makes
    /// this unreachable, it is kept as a defensive kind.
    UndefinedSymbolReference,
}

/// A fatal error, with the 1-based source line and the raw text of the
/// instruction that raised it.
#[derive(Debug)]
pub struct TranslateError {
    pub kind: ErrorKind,
    pub line: usize,
    pub text: String,
}

} // verus!
