//! Errors surfaced while decoding a descriptor blob or walking a descriptor set.
use vstd::prelude::*;
use crate::descriptors::Uuid;

verus! {

/// Why decoding a descriptor byte stream failed.
#[derive(Debug, Clone, Copy, PartialEq, Eq, Structural)]
pub enum DecodeError {
    /// Fewer bytes remain than the current record requires.
    Underflow,
    /// The record's tag byte is not assigned to any descriptor variant.
    InvalidTypeDescriptor { descriptor: u8 },
    /// An array dimension is zero or a negative number other than -1.
    InvalidArrayShape,
    /// A length-prefixed string holds ill-formed UTF-8.
    InvalidUtf8,
    /// A shape element's cardinality byte names no cardinality.
    InvalidCardinality { cardinality: u8 },
    /// No descriptor in the stream carries the requested root UUID.
    UuidNotFound { uuid: Uuid },
    /// The root descriptor's index does not fit in a 16-bit position.
    TooManyDescriptors { index: usize },
}

/// Why a descriptor-set lookup failed.
#[derive(Debug, Clone, Copy, PartialEq, Eq, Structural)]
pub enum CodecError {
    /// A type position points past the end of the descriptor array.
    UnexpectedTypePos { position: u16 },
}

} // verus!
