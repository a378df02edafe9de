use vstd::prelude::*;

verus! {

/// The ways in which an operation of the store fails.
#[derive(Debug, Clone, Copy, PartialEq, Eq, Structural)]
pub enum Error {
    /// No file is stored under the digest.
    NotFound,
    /// Stored bytes do not decompress, or do not carry a frame.
    Corrupt,
    /// A directory listing breaks the grammar of its entries.
    Malformed,
    /// The caller named an unknown kind of object, or a digest that is not
    /// forty hexadecimal digits.
    InvalidArgument,
    /// Reading, writing or creating a directory failed.
    IoFailure,
}

} // verus!
