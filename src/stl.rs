//! Reading a whole binary STL stream into a mesh, and writing a mesh out.
use crate::bytes::{le_u32, lemma_u32_bytes_value, push_all, u32_le_bytes};
use crate::codec::{
    header_bytes, header_from_buff, header_into_buff, header_matches, kept,
    lemma_header_bytes_of_block, lemma_header_round_trip, lemma_record_bytes_len,
    lemma_record_bytes_of_block, lemma_record_round_trip, record_at, record_bytes, triangle_from_buff, triangle_into_buff,
    STLHeader, HEADER_LEN, RECORD_LEN,
};
use crate::error::{ParseError, WriteError};
use crate::triangle::{Point, Triangle, TriangleModel};
use vstd::arithmetic::div_mod::{
    lemma_div_by_multiple, lemma_div_is_ordered, lemma_fundamental_div_mod_converse,
};
use vstd::prelude::*;

verus! {

/// A decoded mesh: the header and the triangles in stream order.
pub struct STLData<T> {
    pub header: STLHeader,
    pub trigs: Vec<T>,
}

/// The triangle count that the header block at the start of `data` declares.
pub open spec fn declared_count(data: Seq<u8>) -> int {
    le_u32(data.subrange(80, 84))
}

/// The number of complete triangle records after the header block.
pub open spec fn full_records(data: Seq<u8>) -> int {
    (data.len() - 84) / 50
}

/// The number of bytes after the last complete triangle record.
pub open spec fn tail_len(data: Seq<u8>) -> int {
    (data.len() - 84) % 50
}

/// `m` holds the header of `data` and, in order, a triangle of type `T` built
/// from each complete record of `data`.
pub open spec fn decodes_to<P: Point, T: Triangle<P>>(data: Seq<u8>, m: STLData<T>) -> bool {
    &&& header_matches(m.header, data)
    &&& m.trigs@.len() == full_records(data)
    &&& forall|i: int|
        0 <= i < m.trigs@.len() ==> #[trigger] m.trigs@[i].model() == kept::<P, T>(
            record_at(data, 84 + 50 * i),
        )
}

/// The outcome of reading `data`.
///
/// A stream shorter than the header block is refused. Then a stream with more
/// complete records than declared is refused at the first record too many;
/// then one that ends inside a record. Any other stream is read, also when it
/// holds fewer records than declared.
pub open spec fn read_outcome<P: Point, T: Triangle<P>>(
    data: Seq<u8>,
    r: Result<STLData<T>, ParseError>,
) -> bool {
    if data.len() < 84 {
        r == Err::<STLData<T>, ParseError>(ParseError::TruncatedHeader)
    } else if full_records(data) > declared_count(data) {
        r == Err::<STLData<T>, ParseError>(
            ParseError::WrongTrigCount {
                count_in_header: declared_count(data) as u32,
                count_recived: (declared_count(data) + 1) as u32,
            },
        )
    } else if tail_len(data) != 0 {
        r == Err::<STLData<T>, ParseError>(ParseError::CorruptData)
    } else {
        r is Ok && decodes_to::<P, T>(data, r->Ok_0)
    }
}

/// The records of the triangles `ms`, one after another.
pub open spec fn records_bytes(ms: Seq<TriangleModel>) -> Seq<u8>
    decreases ms.len(),
{
    if ms.len() == 0 {
        Seq::empty()
    } else {
        records_bytes(ms.drop_last()) + record_bytes(ms.last())
    }
}

/// The fields that each triangle of `ts` reports.
pub open spec fn models<P: Point, T: Triangle<P>>(ts: Seq<T>) -> Seq<TriangleModel> {
    ts.map_values(|t: T| t.model())
}

/// The stream that encodes header `h` followed by the triangles `ms`.
pub open spec fn stl_bytes(h: STLHeader, ms: Seq<TriangleModel>) -> Seq<u8> {
    header_bytes(h) + records_bytes(ms)
}

/// The header block with an all-zero blob and the count `count`.
pub open spec fn blank_header_bytes(count: u32) -> Seq<u8> {
    Seq::new(80, |i: int| 0u8) + u32_le_bytes(count)
}

/// Reads the triangle record at `at`: a triangle when 50 bytes are left,
/// nothing at the end of the stream, and an error when fewer are left.
pub fn read_triangle<P: Point, T: Triangle<P>>(buff: &[u8], at: usize) -> (r: Result<
    Option<T>,
    ParseError,
>)
    requires
        at <= buff@.len(),
    ensures
        buff@.len() == at ==> r == Ok::<Option<T>, ParseError>(None),
        at < buff@.len() < at + 50 ==> r == Err::<Option<T>, ParseError>(ParseError::CorruptData),
        at + 50 <= buff@.len() ==> (r matches Ok(Some(t)) && t.model() == kept::<P, T>(
            record_at(buff@, at as int),
        )),
{
    let left = buff.len() - at;
    if left >= RECORD_LEN {
        Ok(Some(triangle_from_buff(buff, at)))
    } else if left == 0 {
        Ok(None)
    } else {
        Err(ParseError::CorruptData)
    }
}

/// Reads a whole binary STL stream.
pub fn read_stl<P: Point, T: Triangle<P>>(data: &[u8]) -> (r: Result<STLData<T>, ParseError>)
    ensures
        read_outcome::<P, T>(data@, r),
{
    let len = data.len();
    if len < HEADER_LEN {
        return Err(ParseError::TruncatedHeader);
    }
    let header = header_from_buff(data);
    let mut trigs: Vec<T> = Vec::new();
    let mut at: usize = HEADER_LEN;
    loop
        invariant
            len == data@.len(),
            84 <= at <= len,
            at - 84 == 50 * trigs@.len(),
            trigs@.len() <= header.triangle_count,
            header_matches(header, data@),
            forall|i: int|
                0 <= i < trigs@.len() ==> #[trigger] trigs@[i].model() == kept::<P, T>(
                    record_at(data@, 84 + 50 * i),
                ),
        ensures
            at == len,
        decreases len - at,
    {
        let ghost k = trigs@.len() as int;
        let next = read_triangle::<P, T>(data, at);
        match next {
            Err(e) => {
                proof {
                    lemma_fundamental_div_mod_converse(len - 84, 50, k, len - at);
                }
                return Err(e);
            },
            Ok(None) => {
                break ;
            },
            Ok(Some(t)) => {
                let seen: u64 = trigs.len() as u64 + 1;
                if seen > header.triangle_count as u64 {
                    proof {
                        lemma_div_is_ordered(50 * (k + 1), len - 84, 50);
                        lemma_div_by_multiple(k + 1, 50);
                    }
                    return Err(
                        ParseError::WrongTrigCount {
                            count_in_header: header.triangle_count,
                            count_recived: #[verifier::truncate] (seen as u32),
                        },
                    );
                }
                trigs.push(t);
                at = at + RECORD_LEN;
            },
        }
    }
    proof {
        lemma_fundamental_div_mod_converse(len - 84, 50, trigs@.len() as int, 0);
    }
    Ok(STLData { header, trigs })
}

/// Writes `header` verbatim, then the record of each triangle in order.
/// The header's count is not checked against the number of triangles.
pub fn write_stl_with_header<P: Point, T: Triangle<P>>(
    writer: &mut Vec<u8>,
    trigs: &[T],
    header: STLHeader,
) -> (r: Result<(), WriteError>)
    ensures
        r is Ok,
        final(writer)@ == old(writer)@ + stl_bytes(header, models::<P, T>(trigs@)),
{
    let block = header_into_buff(header);
    push_all(writer, block.as_slice());
    let mut i: usize = 0;
    while i < trigs.len()
        invariant
            i <= trigs@.len(),
            writer@ == old(writer)@ + header_bytes(header) + records_bytes(
                models::<P, T>(trigs@.subrange(0, i as int)),
            ),
        decreases trigs@.len() - i,
    {
        triangle_into_buff(&trigs[i], writer);
        proof {
            let before = models::<P, T>(trigs@.subrange(0, i as int));
            let after = models::<P, T>(trigs@.subrange(0, i + 1));
            assert(after.drop_last() =~= before);
            assert(after.last() == trigs@[i as int].model());
        }
        i = i + 1;
    }
    assert(trigs@.subrange(0, i as int) =~= trigs@);
    Ok(())
}

/// Writes the triangles under a header with an all-zero blob whose count is
/// the number of triangles. A sequence too long for that count is refused
/// before anything is written.
pub fn write_stl<P: Point, T: Triangle<P>>(writer: &mut Vec<u8>, trigs: &[T]) -> (r: Result<
    (),
    WriteError,
>)
    ensures
        trigs@.len() > u32::MAX ==> r == Err::<(), WriteError>(
            WriteError::ToManyTriangles { max: u32::MAX as usize, found: trigs@.len() as usize },
        ) && final(writer)@ == old(writer)@,
        trigs@.len() <= u32::MAX ==> r is Ok && final(writer)@ == old(writer)@ + blank_header_bytes(
            trigs@.len() as u32,
        ) + records_bytes(models::<P, T>(trigs@)),
{
    let n = trigs.len();
    if n > u32::MAX as usize {
        return Err(WriteError::ToManyTriangles { max: u32::MAX as usize, found: n });
    }
    let header = STLHeader { header: [0u8; 80], triangle_count: n as u32 };
    assert(header.header@ =~= Seq::new(80, |i: int| 0u8));
    write_stl_with_header(writer, trigs, header)
}

/// The record of the `i`-th triangle stands at `50 * i` in the records.
pub proof fn lemma_records_layout(ms: Seq<TriangleModel>)
    ensures
        records_bytes(ms).len() == 50 * ms.len(),
        forall|i: int|
            0 <= i < ms.len() ==> #[trigger] records_bytes(ms).subrange(50 * i, 50 * i + 50)
                == record_bytes(ms[i]),
    decreases ms.len(),
{
    if ms.len() > 0 {
        let pre = ms.drop_last();
        lemma_records_layout(pre);
        lemma_record_bytes_len(ms.last());
        assert forall|i: int| 0 <= i < ms.len() implies #[trigger] records_bytes(ms).subrange(
            50 * i,
            50 * i + 50,
        ) == record_bytes(ms[i]) by {
            if i < ms.len() - 1 {
                assert(records_bytes(pre).subrange(50 * i, 50 * i + 50) == record_bytes(pre[i]));
                assert(records_bytes(ms).subrange(50 * i, 50 * i + 50) =~= records_bytes(
                    pre,
                ).subrange(50 * i, 50 * i + 50));
            } else {
                assert(records_bytes(ms).subrange(50 * i, 50 * i + 50) =~= record_bytes(
                    ms.last(),
                ));
            }
        }
    }
}

/// Encoding triangles read from consecutive records gives back those records.
proof fn lemma_records_of_blocks(ms: Seq<TriangleModel>, b: Seq<u8>, base: int)
    requires
        0 <= base,
        base + 50 * ms.len() <= b.len(),
        forall|i: int| 0 <= i < ms.len() ==> #[trigger] ms[i] == record_at(b, base + 50 * i),
    ensures
        records_bytes(ms) == b.subrange(base, base + 50 * ms.len()),
    decreases ms.len(),
{
    if ms.len() > 0 {
        let n = ms.len() - 1;
        let pre = ms.drop_last();
        assert forall|i: int| 0 <= i < pre.len() implies #[trigger] pre[i] == record_at(
            b,
            base + 50 * i,
        ) by {
            assert(pre[i] == ms[i]);
        }
        lemma_records_of_blocks(pre, b, base);
        let last = b.subrange(base + 50 * n, base + 50 * n + 50);
        assert(record_bytes(ms.last()) == last) by {
            assert(ms[n] == record_at(b, base + 50 * n));
            lemma_record_bytes_of_block(b, base + 50 * n);
        }
        assert(b.subrange(base, base + 50 * ms.len()) =~= b.subrange(base, base + 50 * n) + last);
    }
}

/// Reading a header block that declares `ms.len()` triangles, followed by the
/// records of `ms`, succeeds and gives back that header block and, in order,
/// the triangles of `ms` as type `T` keeps them.
pub proof fn lemma_read_of_records<P: Point, T: Triangle<P>>(
    hb: Seq<u8>,
    ms: Seq<TriangleModel>,
    r: Result<STLData<T>, ParseError>,
)
    requires
        hb.len() == 84,
        declared_count(hb) == ms.len(),
        read_outcome::<P, T>(hb + records_bytes(ms), r),
    ensures
        r is Ok,
        header_matches(r->Ok_0.header, hb),
        r->Ok_0.trigs@.len() == ms.len(),
        forall|i: int|
            0 <= i < ms.len() ==> #[trigger] r->Ok_0.trigs@[i].model() == kept::<P, T>(ms[i]),
{
    let data = hb + records_bytes(ms);
    lemma_records_layout(ms);
    let n = ms.len() as int;
    lemma_fundamental_div_mod_converse(data.len() - 84, 50, n, 0);
    assert(data.subrange(80, 84) =~= hb.subrange(80, 84));
    assert(data.subrange(0, 80) =~= hb.subrange(0, 80));
    let m = r->Ok_0;
    assert forall|i: int| 0 <= i < ms.len() implies #[trigger] m.trigs@[i].model() == kept::<
        P,
        T,
    >(ms[i]) by {
        assert(data.subrange(84 + 50 * i, 84 + 50 * i + 50) =~= records_bytes(ms).subrange(
            50 * i,
            50 * i + 50,
        ));
        lemma_record_round_trip(ms[i], data, 84 + 50 * i);
    }
}

/// Reading what `write_stl_with_header` wrote, under a header whose count is
/// the number of triangles, gives back the header and the triangles: each
/// with the same points, and with the attribute word that `T` keeps of it.
pub proof fn lemma_read_after_write_with_header<P: Point, T: Triangle<P>>(
    h: STLHeader,
    ts: Seq<T>,
    r: Result<STLData<T>, ParseError>,
)
    requires
        h.triangle_count == ts.len(),
        read_outcome::<P, T>(stl_bytes(h, models::<P, T>(ts)), r),
    ensures
        r is Ok,
        r->Ok_0.header.header@ == h.header@,
        r->Ok_0.header.triangle_count == h.triangle_count,
        r->Ok_0.trigs@.len() == ts.len(),
        forall|i: int|
            0 <= i < ts.len() ==> #[trigger] r->Ok_0.trigs@[i].model() == kept::<P, T>(
                ts[i].model(),
            ),
{
    lemma_header_round_trip(h);
    let ms = models::<P, T>(ts);
    lemma_read_of_records::<P, T>(header_bytes(h), ms, r);
    assert(header_bytes(h).subrange(0, 80) =~= h.header@);
    assert forall|i: int| 0 <= i < ts.len() implies #[trigger] r->Ok_0.trigs@[i].model()
        == kept::<P, T>(ts[i].model()) by {
        assert(ms[i] == ts[i].model());
    }
}

/// Reading what `write_stl` wrote gives back the triangles: each with the
/// same points, and with the attribute word that `T` keeps of it.
pub proof fn lemma_read_after_write<P: Point, T: Triangle<P>>(
    ts: Seq<T>,
    r: Result<STLData<T>, ParseError>,
)
    requires
        ts.len() <= u32::MAX,
        read_outcome::<P, T>(
            blank_header_bytes(ts.len() as u32) + records_bytes(models::<P, T>(ts)),
            r,
        ),
    ensures
        r is Ok,
        r->Ok_0.header.triangle_count == ts.len(),
        r->Ok_0.trigs@.len() == ts.len(),
        forall|i: int|
            0 <= i < ts.len() ==> #[trigger] r->Ok_0.trigs@[i].model() == kept::<P, T>(
                ts[i].model(),
            ),
{
    let hb = blank_header_bytes(ts.len() as u32);
    lemma_u32_bytes_value(ts.len() as u32);
    assert(hb.subrange(80, 84) =~= u32_le_bytes(ts.len() as u32));
    let ms = models::<P, T>(ts);
    lemma_read_of_records::<P, T>(hb, ms, r);
    assert forall|i: int| 0 <= i < ts.len() implies #[trigger] r->Ok_0.trigs@[i].model()
        == kept::<P, T>(ts[i].model()) by {
        assert(ms[i] == ts[i].model());
    }
}

/// Writing what was read from a stream, under the header that was read,
/// gives back the stream byte for byte when `T` keeps the attribute words
/// the stream holds; the records alone (all bytes after the header block)
/// come back whatever header is written before them.
pub proof fn lemma_write_after_read<P: Point, T: Triangle<P>>(
    data: Seq<u8>,
    r: Result<STLData<T>, ParseError>,
)
    requires
        read_outcome::<P, T>(data, r),
        r is Ok,
        forall|i: int|
            0 <= i < full_records(data) ==> T::kept_attr(#[trigger] record_at(data, 84 + 50 * i).attr)
                == record_at(data, 84 + 50 * i).attr,
    ensures
        records_bytes(models::<P, T>(r->Ok_0.trigs@)) == data.subrange(84, data.len() as int),
        stl_bytes(r->Ok_0.header, models::<P, T>(r->Ok_0.trigs@)) == data,
{
    let m = r->Ok_0;
    let ms = models::<P, T>(m.trigs@);
    let n = ms.len() as int;
    lemma_fundamental_div_mod_converse(data.len() - 84, 50, full_records(data), tail_len(data));
    assert forall|i: int| 0 <= i < n implies #[trigger] ms[i] == record_at(data, 84 + 50 * i) by {
        assert(m.trigs@[i].model() == kept::<P, T>(record_at(data, 84 + 50 * i)));
    }
    lemma_records_of_blocks(ms, data, 84);
    lemma_header_bytes_of_block(m.header, data);
    assert(data =~= data.subrange(0, 84) + data.subrange(84, data.len() as int));
}

} // verus!
