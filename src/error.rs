use vstd::prelude::*;

verus! {

/// Why a decode failed.
#[derive(Debug, Clone, Copy, PartialEq, Eq, Structural)]
pub enum DecodeError {
    /// The file header is too short, or its signature or page size is wrong.
    MalformedHeader,
    /// The page-type byte is not one of the four b-tree page tags.
    InvalidPageType(u8),
    /// A record header names a serial-type code that has no meaning.
    InvalidSerialType(u64),
    /// A declared length or offset runs past the available bytes.
    OutOfBounds,
    /// The cell belongs to a page kind whose cells are not decoded.
    UnsupportedCellVariant,
    /// Text bytes are not valid UTF-8.
    InvalidEncoding,
}

} // verus!
