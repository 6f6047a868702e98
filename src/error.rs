use vstd::prelude::*;

verus! {

/// Failures of building, encoding and decoding pages and directories.
#[allow(inconsistent_fields)]
#[derive(Debug, PartialEq, Eq)]
pub enum DbError {
    /// The record's first byte is not the magic byte of its kind.
    InvalidMagic { expected: u8, found: u8 },
    /// A directory already holds as many pages as it can; carries that count.
    InvalidPageCount(u8),
    /// The data ended before the record did.
    UnexpectedEof,
    /// A page name is longer than its field: the name, and the field's width.
    InvalidInput { expected: String, found: usize },
}

} // verus!
