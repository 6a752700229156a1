use vstd::prelude::*;

verus! {

/// What can go wrong while decoding an AML stream.
#[derive(Debug, Clone, PartialEq, Eq)]
pub enum AmlError {
    /// Fewer bytes remain than the read asks for.
    EndOfStream,
    /// A byte that no production expected at this point.
    UnexpectedByte(u8),
    /// A step back past the start of the stream.
    BacktrackedFromStart,
    /// A name token that pops more segments than the scope holds; carries the token.
    InvalidPath(Vec<u8>),
    /// A production of the grammar that this decoder does not handle yet.
    NotYetSupported,
}

} // verus!
