//! What can go wrong when reading or writing a binary STL stream.
use vstd::prelude::*;

verus! {

/// Why a byte stream could not be read as a binary STL mesh.
#[derive(Debug, PartialEq, Eq, Structural)]
pub enum ParseError {
    /// The stream holds more triangle records than its header declares.
    /// `count_recived` is the number of records seen when the excess was found.
    WrongTrigCount { count_in_header: u32, count_recived: u32 },
    /// The stream ends inside a triangle record.
    CorruptData,
    /// The stream ends before the 84-byte header block is complete.
    TruncatedHeader,
}

/// Why a triangle sequence could not be written.
#[derive(Debug, PartialEq, Eq, Structural)]
pub enum WriteError {
    /// The sequence is longer than the header's 32-bit count can hold.
    ToManyTriangles { max: usize, found: usize },
}

} // verus!
