//! Errors reported by the bitstream parser and the grain-table loader.
use vstd::prelude::*;

verus! {

/// Why parsing or rewriting failed.
#[derive(Debug, Clone, Copy, PartialEq, Eq, Structural)]
pub enum ParseError {
    /// The input ended in the middle of a syntax element.
    UnexpectedEof,
    /// A field held a value that has no meaning.
    InvalidEnumTag,
    /// A field held a value that is out of its allowed range.
    InvalidValue,
    /// A feature that this parser does not handle.
    UnsupportedFeature,
    /// A frame came before any sequence header.
    SequenceHeaderMissing,
    /// An OBU size field disagrees with the data around it.
    LengthMismatch,
    /// A grain table did not follow the table syntax or its ranges.
    GrainTableSyntax,
}

} // verus!
