//! Fixed-layout transcoding: the 84-byte header block and the 50-byte
//! triangle record, both little-endian.
use crate::bytes::{
    le_u16, le_u32, lemma_u16_bytes_value, lemma_u16_value_bytes, lemma_u32_bytes_value,
    lemma_u32_value_bytes, push_all, read_u16_at, read_u32_at, u16_le_bytes, u16_to_le,
    u32_le_bytes, u32_to_le,
};
use crate::triangle::{Coords, Point, Triangle, TriangleModel};
use vstd::prelude::*;

verus! {

/// Length of the header block: the blob and the triangle count.
pub const HEADER_LEN: usize = 84;

/// Length of the free-text blob at the start of the header block.
pub const BLOB_LEN: usize = 80;

/// Length of one triangle record.
pub const RECORD_LEN: usize = 50;

/// The header of a binary STL stream: an opaque 80-byte blob and the number
/// of triangles the stream declares.
#[derive(Debug, Clone, Copy)]
pub struct STLHeader {
    pub header: [u8; 80],
    pub triangle_count: u32,
}

/// The 84 bytes that encode `h`.
pub open spec fn header_bytes(h: STLHeader) -> Seq<u8> {
    h.header@ + u32_le_bytes(h.triangle_count)
}

/// `h` is what the header block at the start of `b` holds.
pub open spec fn header_matches(h: STLHeader, b: Seq<u8>) -> bool {
    &&& h.header@ == b.subrange(0, 80)
    &&& h.triangle_count == le_u32(b.subrange(80, 84))
}

/// The point whose 12 bytes start at `at` in `b`.
pub open spec fn coords_at(b: Seq<u8>, at: int) -> Coords {
    (
        le_u32(b.subrange(at, at + 4)) as u32,
        le_u32(b.subrange(at + 4, at + 8)) as u32,
        le_u32(b.subrange(at + 8, at + 12)) as u32,
    )
}

/// The triangle whose 50-byte record starts at `at` in `b`.
#[verifier::opaque]
pub open spec fn record_at(b: Seq<u8>, at: int) -> TriangleModel {
    TriangleModel {
        normal: coords_at(b, at),
        vert1: coords_at(b, at + 12),
        vert2: coords_at(b, at + 24),
        vert3: coords_at(b, at + 36),
        attr: le_u16(b.subrange(at + 48, at + 50)) as u16,
    }
}

/// The 12 bytes that encode a point.
pub open spec fn coords_bytes(c: Coords) -> Seq<u8> {
    u32_le_bytes(c.0) + u32_le_bytes(c.1) + u32_le_bytes(c.2)
}

/// The 50 bytes that encode a triangle.
#[verifier::opaque]
pub open spec fn record_bytes(m: TriangleModel) -> Seq<u8> {
    coords_bytes(m.normal) + coords_bytes(m.vert1) + coords_bytes(m.vert2) + coords_bytes(
        m.vert3,
    ) + u16_le_bytes(m.attr)
}

/// What a triangle of type `T` built from the fields of `m` reports.
pub open spec fn kept<P: Point, T: Triangle<P>>(m: TriangleModel) -> TriangleModel {
    TriangleModel {
        normal: m.normal,
        vert1: m.vert1,
        vert2: m.vert2,
        vert3: m.vert3,
        attr: T::kept_attr(m.attr),
    }
}

/// Reads the header block at the start of `buff`.
pub fn header_from_buff(buff: &[u8]) -> (h: STLHeader)
    requires
        buff@.len() >= HEADER_LEN,
    ensures
        header_matches(h, buff@),
{
    let mut header = [0u8; 80];
    let mut i: usize = 0;
    while i < BLOB_LEN
        invariant
            i <= 80,
            buff@.len() >= 84,
            header@.len() == 80,
            forall|j: int| 0 <= j < i ==> header@[j] == buff@[j],
        decreases 80 - i,
    {
        header[i] = buff[i];
        i = i + 1;
    }
    assert(header@ =~= buff@.subrange(0, 80));
    let triangle_count = read_u32_at(buff, BLOB_LEN);
    STLHeader { header, triangle_count }
}

/// Encodes `header` as its 84-byte block.
pub fn header_into_buff(header: STLHeader) -> (r: [u8; 84])
    ensures
        r@ == header_bytes(header),
{
    let mut buff = [0u8; 84];
    let mut i: usize = 0;
    while i < BLOB_LEN
        invariant
            i <= 80,
            buff@.len() == 84,
            forall|j: int| 0 <= j < i ==> buff@[j] == header.header@[j],
        decreases 80 - i,
    {
        buff[i] = header.header[i];
        i = i + 1;
    }
    let count = u32_to_le(header.triangle_count);
    let mut k: usize = 0;
    while k < 4
        invariant
            k <= 4,
            buff@.len() == 84,
            count@ == u32_le_bytes(header.triangle_count),
            forall|j: int| 0 <= j < 80 ==> buff@[j] == header.header@[j],
            forall|j: int| 0 <= j < k ==> buff@[80 + j] == count@[j],
        decreases 4 - k,
    {
        buff[BLOB_LEN + k] = count[k];
        k = k + 1;
    }
    assert(buff@ =~= header_bytes(header));
    buff
}

/// Reads the point whose 12 bytes start at `at`.
pub fn point_from_buff<P: Point>(buff: &[u8], at: usize) -> (p: P)
    requires
        at + 12 <= buff@.len(),
    ensures
        p.coords() == coords_at(buff@, at as int),
{
    // the slice length bounds every offset computed below
    let _len = buff.len();
    let x = read_u32_at(buff, at);
    let y = read_u32_at(buff, at + 4);
    let z = read_u32_at(buff, at + 8);
    P::new(x, y, z)
}

/// Reads the triangle whose 50-byte record starts at `at`.
pub fn triangle_from_buff<P: Point, T: Triangle<P>>(buff: &[u8], at: usize) -> (t: T)
    requires
        at + RECORD_LEN <= buff@.len(),
    ensures
        t.model() == kept::<P, T>(record_at(buff@, at as int)),
{
    // the slice length bounds every offset computed below
    let _len = buff.len();
    let normal: P = point_from_buff(buff, at);
    let vert1: P = point_from_buff(buff, at + 12);
    let vert2: P = point_from_buff(buff, at + 24);
    let vert3: P = point_from_buff(buff, at + 36);
    let attr = read_u16_at(buff, at + 48);
    proof {
        reveal(record_at);
    }
    T::new(normal, vert1, vert2, vert3, attr)
}

/// Appends the 12 bytes of `point` to `out`.
pub fn point_into_buff<P: Point>(point: &P, out: &mut Vec<u8>)
    ensures
        final(out)@ == old(out)@ + coords_bytes(point.coords()),
{
    let x = u32_to_le(point.x());
    let y = u32_to_le(point.y());
    let z = u32_to_le(point.z());
    push_all(out, x.as_slice());
    push_all(out, y.as_slice());
    push_all(out, z.as_slice());
    assert(final(out)@ =~= old(out)@ + coords_bytes(point.coords()));
}

/// Appends the 50-byte record of `trig` to `out`, with the attribute word
/// that `trig` reports.
pub fn triangle_into_buff<P: Point, T: Triangle<P>>(trig: &T, out: &mut Vec<u8>)
    ensures
        final(out)@ == old(out)@ + record_bytes(trig.model()),
{
    point_into_buff(&trig.normal(), out);
    point_into_buff(&trig.vert1(), out);
    point_into_buff(&trig.vert2(), out);
    point_into_buff(&trig.vert3(), out);
    let attr = u16_to_le(trig.attr());
    push_all(out, attr.as_slice());
    proof {
        reveal(record_bytes);
    }
    assert(final(out)@ =~= old(out)@ + record_bytes(trig.model()));
}

/// A triangle record is 50 bytes long.
pub proof fn lemma_record_bytes_len(m: TriangleModel)
    ensures
        record_bytes(m).len() == RECORD_LEN,
{
    reveal(record_bytes);
}

/// Decoding an encoded header block gives back the blob and the count.
pub proof fn lemma_header_round_trip(h: STLHeader)
    ensures
        header_bytes(h).len() == HEADER_LEN,
        header_matches(h, header_bytes(h)),
{
    lemma_u32_bytes_value(h.triangle_count);
    assert(header_bytes(h).subrange(0, 80) =~= h.header@);
    assert(header_bytes(h).subrange(80, 84) =~= u32_le_bytes(h.triangle_count));
}

/// Encoding the header read from a block gives back the block's bytes.
pub proof fn lemma_header_bytes_of_block(h: STLHeader, b: Seq<u8>)
    requires
        b.len() >= HEADER_LEN,
        header_matches(h, b),
    ensures
        header_bytes(h) == b.subrange(0, 84),
{
    lemma_u32_value_bytes(b.subrange(80, 84));
    assert(header_bytes(h) =~= b.subrange(0, 84));
}

/// Decoding the encoding of a point gives back its coordinates.
proof fn lemma_coords_round_trip(c: Coords, b: Seq<u8>, at: int)
    requires
        0 <= at,
        at + 12 <= b.len(),
        b.subrange(at, at + 12) == coords_bytes(c),
    ensures
        coords_at(b, at) == c,
{
    lemma_u32_bytes_value(c.0);
    lemma_u32_bytes_value(c.1);
    lemma_u32_bytes_value(c.2);
    assert(b.subrange(at, at + 4) =~= b.subrange(at, at + 12).subrange(0, 4));
    assert(b.subrange(at + 4, at + 8) =~= b.subrange(at, at + 12).subrange(4, 8));
    assert(b.subrange(at + 8, at + 12) =~= b.subrange(at, at + 12).subrange(8, 12));
    assert(coords_bytes(c).subrange(0, 4) =~= u32_le_bytes(c.0));
    assert(coords_bytes(c).subrange(4, 8) =~= u32_le_bytes(c.1));
    assert(coords_bytes(c).subrange(8, 12) =~= u32_le_bytes(c.2));
}

/// Decoding the record of a triangle, wherever it stands, gives back the
/// triangle's fields.
pub proof fn lemma_record_round_trip(m: TriangleModel, b: Seq<u8>, at: int)
    requires
        0 <= at,
        at + RECORD_LEN <= b.len(),
        b.subrange(at, at + 50) == record_bytes(m),
    ensures
        record_at(b, at) == m,
{
    reveal(record_at);
    reveal(record_bytes);
    let r = record_bytes(m);
    assert(b.subrange(at, at + 12) =~= r.subrange(0, 12));
    assert(b.subrange(at + 12, at + 24) =~= r.subrange(12, 24));
    assert(b.subrange(at + 24, at + 36) =~= r.subrange(24, 36));
    assert(b.subrange(at + 36, at + 48) =~= r.subrange(36, 48));
    assert(b.subrange(at + 48, at + 50) =~= r.subrange(48, 50));
    assert(r.subrange(0, 12) =~= coords_bytes(m.normal));
    assert(r.subrange(12, 24) =~= coords_bytes(m.vert1));
    assert(r.subrange(24, 36) =~= coords_bytes(m.vert2));
    assert(r.subrange(36, 48) =~= coords_bytes(m.vert3));
    assert(r.subrange(48, 50) =~= u16_le_bytes(m.attr));
    lemma_coords_round_trip(m.normal, b, at);
    lemma_coords_round_trip(m.vert1, b, at + 12);
    lemma_coords_round_trip(m.vert2, b, at + 24);
    lemma_coords_round_trip(m.vert3, b, at + 36);
    lemma_u16_bytes_value(m.attr);
}

/// Encoding the point read from 12 bytes gives back those bytes.
proof fn lemma_coords_bytes_of_block(b: Seq<u8>, at: int)
    requires
        0 <= at,
        at + 12 <= b.len(),
    ensures
        coords_bytes(coords_at(b, at)) == b.subrange(at, at + 12),
{
    lemma_u32_value_bytes(b.subrange(at, at + 4));
    lemma_u32_value_bytes(b.subrange(at + 4, at + 8));
    lemma_u32_value_bytes(b.subrange(at + 8, at + 12));
    assert(coords_bytes(coords_at(b, at)) =~= b.subrange(at, at + 12));
}

/// Encoding the triangle read from a record gives back the record's bytes.
pub proof fn lemma_record_bytes_of_block(b: Seq<u8>, at: int)
    requires
        0 <= at,
        at + RECORD_LEN <= b.len(),
    ensures
        record_bytes(record_at(b, at)) == b.subrange(at, at + 50),
{
    let m = record_at(b, at);
    let n = b.subrange(at, at + 12);
    let v1 = b.subrange(at + 12, at + 24);
    let v2 = b.subrange(at + 24, at + 36);
    let v3 = b.subrange(at + 36, at + 48);
    let a = b.subrange(at + 48, at + 50);
    assert(m.normal == coords_at(b, at) && m.vert1 == coords_at(b, at + 12) && m.vert2
        == coords_at(b, at + 24) && m.vert3 == coords_at(b, at + 36) && m.attr == le_u16(a) as u16)
        by {
        reveal(record_at);
    }
    lemma_coords_bytes_of_block(b, at);
    lemma_coords_bytes_of_block(b, at + 12);
    lemma_coords_bytes_of_block(b, at + 24);
    lemma_coords_bytes_of_block(b, at + 36);
    lemma_u16_value_bytes(a);
    assert(record_bytes(m) == coords_bytes(m.normal) + coords_bytes(m.vert1) + coords_bytes(
        m.vert2,
    ) + coords_bytes(m.vert3) + u16_le_bytes(m.attr)) by {
        reveal(record_bytes);
    }
    assert(b.subrange(at, at + 50) =~= n + v1 + v2 + v3 + a);
}

} // verus!
