use vstd::prelude::*;

verus! {

/// Why a decode stopped.
#[derive(Debug, Clone, Copy, PartialEq, Eq, Structural)]
pub enum DecodeError {
    /// The input ended inside a fixed-width field, a string or a blob.
    UnexpectedEof,
    /// The input ended before a varint reached its terminating byte.
    InvalidVarint,
    /// The first byte of a b-tree page header is none of the four page types.
    InvalidPageType(u8),
    /// The bytes of a string value are not UTF-8.
    InvalidString,
    /// The database header does not start with the sixteen-byte signature.
    BadMagic,
    /// A serial type names a length that `usize` cannot hold.
    SerialTypeOutOfRange,
}

} // verus!
