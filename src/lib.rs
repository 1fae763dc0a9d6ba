//! Binary STL codec: an 80-byte header blob, a little-endian triangle count,
//! and a flat run of 50-byte triangle records.
//!
//! Coordinates are carried as the raw IEEE-754 bit patterns of their `f32`
//! values: the format is a bit-exact transcoding, so the codec never needs to
//! interpret a coordinate, and every bit pattern (NaN and infinity included)
//! passes through unchanged.

pub mod bytes;
pub mod triangle;
pub mod codec;
pub mod error;
pub mod stl;

pub use codec::{header_from_buff, header_into_buff, STLHeader};
pub use error::{ParseError, WriteError};
pub use stl::{read_stl, write_stl, write_stl_with_header, STLData};
pub use triangle::{Facet, Point, Triangle, Trig};
