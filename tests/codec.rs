use bin_stl::triangle::Trig;
use byteorder::{ByteOrder, LittleEndian};
use bin_stl::{
    Facet,
    header_from_buff, header_into_buff, read_stl, write_stl, write_stl_with_header, ParseError,
    Point, STLData, STLHeader, Triangle,
};

type P3 = (u32, u32, u32);

#[derive(Debug, Copy, Clone)]
struct TestHeader(STLHeader);

impl PartialEq for TestHeader {
    fn eq(&self, other: &Self) -> bool {
        self.0.header == other.0.header && self.0.triangle_count == other.0.triangle_count
    }
}

fn pt(x: f32, y: f32, z: f32) -> P3 {
    (x.to_bits(), y.to_bits(), z.to_bits())
}

fn near_tuple(t1: P3, t2: P3, within: f32) -> bool {
    let a = |b: u32| f32::from_bits(b);
    (a(t1.0) - a(t2.0)).abs() <= within
        && (a(t1.1) - a(t2.1)).abs() <= within
        && (a(t1.2) - a(t2.2)).abs() <= within
}

fn point_into_tuple<P: Point>(p: P) -> P3 {
    (p.x(), p.y(), p.z())
}

fn triangle_near<P: Point, T: Triangle<P>>(lhs: &T, rhs: &T, within: f32) -> bool {
    near_tuple(point_into_tuple(lhs.normal()), point_into_tuple(rhs.normal()), within)
        && near_tuple(point_into_tuple(lhs.vert1()), point_into_tuple(rhs.vert1()), within)
        && near_tuple(point_into_tuple(lhs.vert2()), point_into_tuple(rhs.vert2()), within)
        && near_tuple(point_into_tuple(lhs.vert3()), point_into_tuple(rhs.vert3()), within)
}

fn gen_triangle() -> Trig<P3> {
    let p = pt(1.0, 2.0, 3.0);
    Trig::new(p, p, p, p, 0)
}

fn gen_header(trig_count: u32) -> [u8; 84] {
    let mut buff = [0u8; 84];
    LittleEndian::write_u32(&mut buff[80..84], trig_count);
    buff
}

/// A small closed mesh (a tetrahedron) encoded by hand, field by field.
fn fixture_stl() -> Vec<u8> {
    let mut data = Vec::new();
    let mut blob = [b' '; 80];
    blob[..10].copy_from_slice(b"tetrahedra");
    data.extend_from_slice(&blob);
    data.extend_from_slice(&4u32.to_le_bytes());
    let v = [
        [0.0f32, 0.0, 0.0],
        [1.0, 0.0, 0.0],
        [0.0, 1.0, 0.0],
        [0.0, 0.0, 1.0],
    ];
    let faces = [
        ([0.0f32, 0.0, -1.0], [0, 2, 1]),
        ([0.0, -1.0, 0.0], [0, 1, 3]),
        ([-1.0, 0.0, 0.0], [0, 3, 2]),
        ([0.577_350_3, 0.577_350_3, 0.577_350_3], [1, 2, 3]),
    ];
    for (normal, idx) in faces.iter() {
        for c in normal.iter() {
            data.extend_from_slice(&c.to_le_bytes());
        }
        for &i in idx.iter() {
            for c in v[i].iter() {
                data.extend_from_slice(&c.to_le_bytes());
            }
        }
        data.extend_from_slice(&0u16.to_le_bytes());
    }
    data
}

fn read_trigs(data: &[u8]) -> Result<STLData<Trig<P3>>, ParseError> {
    read_stl::<P3, Trig<P3>>(data)
}

#[test]
fn near() {
    let p = pt(1.0, 2.0, 3.0);
    let t: Trig<P3> = Trig::new(p, p, p, p, 0);
    assert!(triangle_near(&t, &t, 0.01))
}

#[test]
fn lib_header() {
    let header = TestHeader(STLHeader {
        header: [0u8; 80],
        triangle_count: 32,
    });
    let header_data = header_into_buff(header.0);
    let header2 = TestHeader(header_from_buff(&header_data));
    assert_eq!(header2, header)
}

#[test]
fn lib_encode_decode() {
    let v: Vec<_> = std::iter::repeat(gen_triangle()).take(10).collect();
    let mut encoded = Vec::new();
    write_stl(&mut encoded, &v).unwrap();
    let data = read_trigs(&encoded).unwrap();
    data.trigs
        .iter()
        .zip(v.iter())
        .for_each(|(x, y)| assert!(triangle_near(x, y, 0.1)));
    assert_eq!(v.len(), data.trigs.len());
}

#[test]
fn read_header() {
    const X: u32 = 12;
    let header = header_from_buff(&gen_header(X));
    assert_eq!(X, header.triangle_count);
}

#[test]
fn read_teapot() {
    let data = fixture_stl();
    assert!(!data.is_empty());
    assert_eq!(data.len(), 84 + 4 * 50);
}

#[test]
fn parse() {
    let data = fixture_stl();
    let _ = read_trigs(&data).unwrap();
}

#[test]
fn utah_teapot_encode_decode() {
    let data = fixture_stl();
    let stl_data = read_trigs(&data).unwrap();
    let mut encoded = Vec::new();
    write_stl(&mut encoded, &stl_data.trigs).unwrap();
    assert_eq!(&data[84..], &encoded[84..])
}

#[test]
fn encode_decode_with_header() {
    let data = fixture_stl();
    let stl_data = read_trigs(&data).unwrap();
    let mut encoded = Vec::new();
    write_stl_with_header(&mut encoded, &stl_data.trigs, stl_data.header).unwrap();
    assert_eq!(encoded, data)
}

#[test]
fn header_round_trip_keeps_blob_and_count() {
    let mut blob = [0u8; 80];
    for (i, b) in blob.iter_mut().enumerate() {
        *b = (i * 7 + 3) as u8;
    }
    let h = STLHeader {
        header: blob,
        triangle_count: 0xDEAD_BEEF,
    };
    let bytes = header_into_buff(h);
    assert_eq!(&bytes[..80], &blob[..]);
    assert_eq!(&bytes[80..], &[0xEF, 0xBE, 0xAD, 0xDE]);
    let back = header_from_buff(&bytes);
    assert_eq!(TestHeader(back), TestHeader(h));
}

#[test]
fn record_layout_is_exact() {
    let t: Trig<P3> = Trig::new(
        pt(1.0, 0.0, -2.0),
        (0x0102_0304, 0, u32::MAX),
        pt(0.5, 0.5, 0.5),
        pt(-1.0, 3.0, 0.0),
        0xBEEF,
    );
    let mut out = Vec::new();
    write_stl(&mut out, &[t]).unwrap();
    assert_eq!(out.len(), 84 + 50);
    assert!(out[..80].iter().all(|&b| b == 0));
    assert_eq!(&out[80..84], &[1, 0, 0, 0]);
    let rec = &out[84..];
    assert_eq!(&rec[0..4], &[0x00, 0x00, 0x80, 0x3F]);
    assert_eq!(&rec[8..12], &[0x00, 0x00, 0x00, 0xC0]);
    assert_eq!(&rec[12..16], &[0x04, 0x03, 0x02, 0x01]);
    assert_eq!(&rec[20..24], &[0xFF, 0xFF, 0xFF, 0xFF]);
    // this triangle type drops its attribute word and reports zero
    assert_eq!(&rec[48..50], &[0, 0]);
}

#[test]
fn attribute_word_is_dropped_by_trig() {
    let mut data = gen_header(1).to_vec();
    data.extend_from_slice(&[0u8; 48]);
    data.extend_from_slice(&[0x34, 0x12]);
    let m = read_trigs(&data).unwrap();
    assert_eq!(m.trigs.len(), 1);
    assert_eq!(m.trigs[0].attr(), 0);
}

#[test]
fn truncated_record_is_corrupt() {
    let data = fixture_stl();
    for cut in 1..50 {
        let short = &data[..84 + 3 * 50 + cut];
        assert!(matches!(read_trigs(short), Err(ParseError::CorruptData)));
    }
}

#[test]
fn extra_record_is_count_mismatch() {
    let mut data = gen_header(2).to_vec();
    for _ in 0..3 {
        data.extend_from_slice(&[7u8; 50]);
    }
    match read_trigs(&data) {
        Err(e) => assert_eq!(
            e,
            ParseError::WrongTrigCount {
                count_in_header: 2,
                count_recived: 3
            }
        ),
        Ok(_) => panic!("three records under a count of two were accepted"),
    }
}

#[test]
fn count_mismatch_comes_before_truncation() {
    let mut data = gen_header(0).to_vec();
    data.extend_from_slice(&[1u8; 50]);
    data.extend_from_slice(&[1u8; 10]);
    match read_trigs(&data) {
        Err(e) => assert_eq!(
            e,
            ParseError::WrongTrigCount {
                count_in_header: 0,
                count_recived: 1
            }
        ),
        Ok(_) => panic!("an excess record was accepted"),
    }
}

#[test]
fn short_header_is_refused() {
    for len in [0usize, 1, 80, 83] {
        let data = vec![0u8; len];
        assert!(matches!(read_trigs(&data), Err(ParseError::TruncatedHeader)));
    }
}

#[test]
fn fewer_records_than_declared_are_accepted() {
    let mut data = gen_header(5).to_vec();
    data.extend_from_slice(&[9u8; 100]);
    let m = read_trigs(&data).unwrap();
    assert_eq!(m.header.triangle_count, 5);
    assert_eq!(m.trigs.len(), 2);
}

#[test]
fn empty_mesh_round_trip() {
    let mut out = Vec::new();
    let none: Vec<Trig<P3>> = Vec::new();
    write_stl(&mut out, &none).unwrap();
    assert_eq!(out, vec![0u8; 84]);
    let m = read_trigs(&out).unwrap();
    assert_eq!(m.header.triangle_count, 0);
    assert!(m.trigs.is_empty());
}

#[test]
fn pseudo_random_triangles_round_trip_exactly() {
    let mut seed: u64 = 0x1234_5678_9abc_def0;
    let mut next = || {
        seed = seed
            .wrapping_mul(6364136223846793005)
            .wrapping_add(1442695040888963407);
        (seed >> 32) as u32
    };
    let mut v: Vec<Trig<P3>> = Vec::new();
    for _ in 0..64 {
        let mut p = || (next(), next(), next());
        let (n, a, b, c) = (p(), p(), p(), p());
        v.push(Trig::new(n, a, b, c, 0));
    }
    let mut out = Vec::new();
    write_stl(&mut out, &v).unwrap();
    let m = read_trigs(&out).unwrap();
    assert_eq!(m.trigs.len(), v.len());
    for (x, y) in m.trigs.iter().zip(v.iter()) {
        assert_eq!(x.normal(), y.normal());
        assert_eq!(x.vert1(), y.vert1());
        assert_eq!(x.vert2(), y.vert2());
        assert_eq!(x.vert3(), y.vert3());
    }
}

#[test]
fn nan_and_infinity_pass_through() {
    let odd = (f32::NAN.to_bits() | 1, f32::INFINITY.to_bits(), (-0.0f32).to_bits());
    let t: Trig<P3> = Trig::new(odd, odd, odd, odd, 0);
    let mut out = Vec::new();
    write_stl(&mut out, &[t]).unwrap();
    let m = read_trigs(&out).unwrap();
    assert_eq!(m.trigs[0].vert2(), odd);
}

#[test]
fn array_points_round_trip() {
    let p: [u32; 3] = [1, 2, 3];
    let t: Trig<[u32; 3]> = Trig::new(p, p, p, [4, 5, 6], 9);
    let mut out = Vec::new();
    write_stl(&mut out, &[t]).unwrap();
    let m = read_stl::<[u32; 3], Trig<[u32; 3]>>(&out).unwrap();
    assert_eq!(m.trigs[0].vert3(), [4, 5, 6]);
    assert_eq!(m.trigs[0].normal().x(), 1);
}

#[test]
fn header_count_is_not_checked_on_write() {
    let h = STLHeader {
        header: [b'x'; 80],
        triangle_count: 7,
    };
    let mut out = vec![0xAA];
    write_stl_with_header(&mut out, &[gen_triangle()], h).unwrap();
    assert_eq!(out.len(), 1 + 84 + 50);
    assert_eq!(out[0], 0xAA);
    assert_eq!(&out[81..85], &[7, 0, 0, 0]);
}

#[test]
fn attribute_word_kept_by_faithful_type() {
    let f: Facet<P3> = Facet::new(
        pt(0.0, 0.0, 1.0),
        pt(1.0, 2.0, 3.0),
        (5, 6, 7),
        (8, 9, 10),
        0xBEEF,
    );
    let g: Facet<P3> = Facet::new((1, 1, 1), (2, 2, 2), (3, 3, 3), (4, 4, 4), 0x0102);
    let mut out = Vec::new();
    write_stl(&mut out, &[f, g]).unwrap();
    assert_eq!(&out[84 + 48..84 + 50], &[0xEF, 0xBE]);
    assert_eq!(&out[84 + 98..84 + 100], &[0x02, 0x01]);
    let m = read_stl::<P3, Facet<P3>>(&out).unwrap();
    assert_eq!(m.trigs.len(), 2);
    assert_eq!(m.trigs[0].attr(), 0xBEEF);
    assert_eq!(m.trigs[1].attr(), 0x0102);
    assert_eq!(m.trigs[0].vert2(), (5, 6, 7));
    assert_eq!(m.trigs[1].vert3(), (4, 4, 4));
    let mut again = Vec::new();
    write_stl_with_header(&mut again, &m.trigs, m.header).unwrap();
    assert_eq!(again, out);
}
