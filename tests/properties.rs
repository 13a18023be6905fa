use std::io::Write;

use byteorder::{LittleEndian, WriteBytesExt};
use fbx_direct::array::{read_property_array, ArrayHeader};
use fbx_direct::property::decode_text;
use fbx_direct::{DelayedProperties, Property};

fn buffer(bytes: Vec<u8>, n: usize) -> DelayedProperties {
    DelayedProperties::from_vec_u8(bytes, 7400, n)
}

fn zlib(raw: &[u8]) -> Vec<u8> {
    let mut e = flate2::write::ZlibEncoder::new(Vec::new(), flate2::Compression::default());
    e.write_all(raw).unwrap();
    e.finish().unwrap()
}

fn array_property(code: u8, num_elements: u32, encoding: u32, payload: &[u8]) -> Vec<u8> {
    let mut out = vec![code];
    out.write_u32::<LittleEndian>(num_elements).unwrap();
    out.write_u32::<LittleEndian>(encoding).unwrap();
    out.write_u32::<LittleEndian>(payload.len() as u32).unwrap();
    out.extend_from_slice(payload);
    out
}

fn collect(props: &DelayedProperties) -> Vec<Property<'_>> {
    let mut it = props.iter();
    let mut out = Vec::new();
    while let Some(p) = it.next() {
        out.push(p);
    }
    out
}

#[test]
fn scalar_properties_round_trip() {
    let mut bytes = vec![b'I', 0x2a, 0x00, 0x00, 0x00];
    bytes.extend_from_slice(&[b'L', 0x01, 0, 0, 0, 0, 0, 0, 0]);
    bytes.extend_from_slice(&[b'F', 0x00, 0x00, 0x80, 0x3f]);
    bytes.extend_from_slice(&[b'D', 0, 0, 0, 0, 0, 0, 0xf0, 0x3f]);
    let props = buffer(bytes, 4);
    let values = collect(&props);
    assert_eq!(values.len(), 4);
    assert_eq!(values[0].get_i32(), Some(42));
    assert_eq!(values[1].get_i64(), Some(1));
    match values[2] {
        Property::F32(bits) => assert_eq!(f32::from_bits(bits), 1.0f32),
        ref other => panic!("unexpected {:?}", other),
    }
    match values[3] {
        Property::F64(bits) => assert_eq!(f64::from_bits(bits), 1.0f64),
        ref other => panic!("unexpected {:?}", other),
    }
}

#[test]
fn every_scalar_kind_round_trips() {
    let mut bytes = vec![b'C', b'Y', b'C', b'T', b'Y'];
    bytes.write_i16::<LittleEndian>(-2).unwrap();
    bytes.push(b'I');
    bytes.write_i32::<LittleEndian>(i32::MIN).unwrap();
    bytes.push(b'L');
    bytes.write_i64::<LittleEndian>(-1234567890123).unwrap();
    bytes.push(b'F');
    bytes.write_f32::<LittleEndian>(-2.5).unwrap();
    bytes.push(b'D');
    bytes.write_f64::<LittleEndian>(0.1).unwrap();
    let props = buffer(bytes, 7);
    let values = collect(&props);
    assert_eq!(values.len(), 7);
    assert_eq!(values[0].get_bool(), Some(true));
    assert_eq!(values[1].get_bool(), Some(false));
    assert_eq!(values[2].get_i16(), Some(-2));
    assert_eq!(values[3].get_i32(), Some(i32::MIN));
    assert_eq!(values[4].get_i64(), Some(-1234567890123));
    assert!(matches!(values[5], Property::F32(b) if f32::from_bits(b) == -2.5));
    assert!(matches!(values[6], Property::F64(b) if f64::from_bits(b) == 0.1));
}

#[test]
fn non_canonical_boolean_uses_low_bit() {
    let props = buffer(vec![b'C', 0x01, b'C', 0x02], 2);
    let values = collect(&props);
    assert_eq!(values[0].get_bool(), Some(true));
    assert_eq!(values[1].get_bool(), Some(false));
}

#[test]
fn string_and_raw_bytes_carrier() {
    let props = buffer(vec![b'S', 2, 0, 0, 0, b'h', b'i'], 1);
    let values = collect(&props);
    assert!(matches!(values[0], Property::String(Ok("hi"))));
    assert_eq!(values[0].get_string(), Some("hi"));
    let props = buffer(vec![b'S', 2, 0, 0, 0, 0xff, 0xfe], 1);
    let values = collect(&props);
    match values[0] {
        Property::String(Err(raw)) => assert_eq!(raw, &[0xff, 0xfe]),
        ref other => panic!("unexpected {:?}", other),
    }
    assert_eq!(values[0].get_string(), None);
    assert_eq!(values[0].get_string_or_raw(), Some(Err(&[0xffu8, 0xfe][..])));
}

#[test]
fn binary_property_is_borrowed_verbatim() {
    let props = buffer(vec![b'R', 3, 0, 0, 0, 1, 2, 3, b'Y', 5, 0], 2);
    let values = collect(&props);
    assert_eq!(values[0].get_binary(), Some(&[1u8, 2, 3][..]));
    assert_eq!(values[1].get_i16(), Some(5));
}

#[test]
fn compressed_i32_array() {
    let raw = [1u8, 0, 0, 0, 2, 0, 0, 0, 3, 0, 0, 0];
    let packed = zlib(&raw);
    let props = buffer(array_property(b'i', 3, 1, &packed), 1);
    let values = collect(&props);
    assert_eq!(values.len(), 1);
    assert_eq!(values[0].get_vec_i32(), Some(&vec![1, 2, 3]));
    let props = buffer(array_property(b'i', 3, 0, &raw), 1);
    let plain = collect(&props);
    assert_eq!(plain[0].get_vec_i32(), Some(&vec![1, 2, 3]));
}

#[test]
fn compressed_arrays_of_every_kind_match_plain() {
    let mut raw64 = Vec::new();
    for x in [-1i64, 0, 1 << 40] {
        raw64.write_i64::<LittleEndian>(x).unwrap();
    }
    let cases: Vec<(u8, u32, Vec<u8>)> = vec![
        (b'b', 4, vec![b'T', b'Y', 1, 0]),
        (b'l', 3, raw64.clone()),
        (b'd', 3, raw64.clone()),
        (b'f', 2, vec![0, 0, 0x80, 0x3f, 0, 0, 0, 0x40]),
    ];
    for (code, n, raw) in cases {
        let a = buffer(array_property(code, n, 1, &zlib(&raw)), 1);
        let b = buffer(array_property(code, n, 0, &raw), 1);
        let va = collect(&a);
        let vb = collect(&b);
        assert_eq!(format!("{:?}", va), format!("{:?}", vb));
        assert_eq!(va.len(), 1);
    }
    let b = buffer(array_property(b'b', 4, 0, &[b'T', b'Y', 1, 0]), 1);
    assert_eq!(collect(&b)[0].get_vec_bool(), Some(&vec![false, true, true, false]));
    let l = buffer(array_property(b'l', 3, 1, &zlib(&raw64)), 1);
    assert_eq!(collect(&l)[0].get_vec_i64(), Some(&vec![-1, 0, 1 << 40]));
    let f = buffer(array_property(b'f', 2, 0, &[0, 0, 0x80, 0x3f, 0, 0, 0, 0x40]), 1);
    match &collect(&f)[0] {
        Property::VecF32(bits) => {
            let xs: Vec<f32> = bits.iter().map(|b| f32::from_bits(*b)).collect();
            assert_eq!(xs, vec![1.0, 2.0]);
        },
        other => panic!("unexpected {:?}", other),
    }
}

#[test]
fn plain_array_ignores_bytes_past_its_elements() {
    let props = buffer(array_property(b'i', 1, 0, &[7, 0, 0, 0, 9, 9]), 1);
    assert_eq!(collect(&props)[0].get_vec_i32(), Some(&vec![7]));
}

#[test]
fn broken_zlib_stream_stops_iteration() {
    let props = buffer(array_property(b'i', 1, 1, &[1, 2, 3, 4, 5]), 1);
    assert!(collect(&props).is_empty());
}

#[test]
fn short_zlib_stream_stops_iteration() {
    let props = buffer(array_property(b'i', 4, 1, &zlib(&[1, 0, 0, 0])), 1);
    assert!(collect(&props).is_empty());
}

#[test]
fn unknown_array_encoding_stops_iteration() {
    let mut bytes = vec![b'I', 5, 0, 0, 0];
    bytes.extend(array_property(b'i', 1, 2, &[1, 0, 0, 0]));
    bytes.extend_from_slice(&[b'I', 6, 0, 0, 0]);
    let props = buffer(bytes, 3);
    let mut it = props.iter();
    assert_eq!(it.next().unwrap().get_i32(), Some(5));
    assert!(it.next().is_none());
    assert_eq!(it.size_hint(), (0, Some(0)));
    assert!(it.next().is_none());
}

#[test]
fn unknown_type_code_stops_after_prior_property() {
    let props = buffer(vec![b'Y', 1, 0, b'Z', b'Y', 2, 0], 3);
    let mut it = props.iter();
    assert_eq!(it.size_hint(), (0, Some(3)));
    assert_eq!(it.next().unwrap().get_i16(), Some(1));
    assert_eq!(it.size_hint(), (0, Some(2)));
    assert!(it.next().is_none());
    assert_eq!(it.size_hint(), (0, Some(0)));
    assert!(it.next().is_none());
}

#[test]
fn truncated_property_stops_iteration() {
    for bytes in [
        vec![b'I', 1, 0],
        vec![b'S', 5, 0, 0, 0, b'a'],
        vec![b'S', 5, 0],
        vec![b'i', 1, 0, 0, 0, 0, 0],
        vec![b'i', 1, 0, 0, 0, 0, 0, 0, 0, 9, 0, 0, 0, 1],
        vec![b'C'],
    ] {
        let props = buffer(bytes, 1);
        let mut it = props.iter();
        assert!(it.next().is_none());
        assert_eq!(it.size_hint(), (0, Some(0)));
    }
}

#[test]
fn declared_count_bounds_yield() {
    let bytes = vec![b'Y', 1, 0, b'Y', 2, 0, b'Y', 3, 0];
    assert_eq!(collect(&buffer(bytes.clone(), 2)).len(), 2);
    assert_eq!(collect(&buffer(bytes.clone(), 3)).len(), 3);
    assert_eq!(collect(&buffer(bytes.clone(), 10)).len(), 3);
    assert_eq!(collect(&buffer(bytes, 0)).len(), 0);
    assert_eq!(buffer(vec![], 10).num_properties(), 10);
}

#[test]
fn clone_iterates_alike() {
    let mut bytes = vec![b'I', 9, 0, 0, 0, b'S', 1, 0, 0, 0, b'x'];
    bytes.extend(array_property(b'i', 1, 1, &zlib(&[4, 0, 0, 0])));
    let first = buffer(bytes, 3);
    let copy = first.clone();
    assert_eq!(copy.num_properties(), first.num_properties());
    assert_eq!(format!("{:?}", collect(&copy)), format!("{:?}", collect(&first)));
    assert_eq!(collect(&copy).len(), 3);
}

#[test]
fn widening_accessors() {
    let p = Property::I16(-7);
    assert_eq!(p.as_i32(), Some(-7i32));
    assert_eq!(p.as_i64(), Some(-7i64));
    let p = Property::I32(i32::MAX);
    assert_eq!(p.as_i32(), Some(i32::MAX));
    assert_eq!(p.as_i64(), Some(i32::MAX as i64));
    let p = Property::I64(1 << 40);
    assert_eq!(p.as_i32(), None);
    assert_eq!(p.as_i64(), Some(1 << 40));
    assert_eq!(Property::Bool(true).as_i64(), None);
    assert_eq!(Property::F32(0).as_i32(), None);
    let v = Property::VecI32(vec![-1, 2]);
    assert_eq!(v.as_vec_i64(), Some(vec![-1i64, 2]));
    assert_eq!(v.into_vec_i64().unwrap(), vec![-1i64, 2]);
    assert_eq!(Property::VecI64(vec![3]).into_vec_i64().unwrap(), vec![3i64]);
    assert!(matches!(Property::VecBool(vec![]).into_vec_i64(), Err(Property::VecBool(_))));
    assert_eq!(Property::VecBool(vec![true]).as_vec_i64(), None);
}

#[test]
fn exact_accessors() {
    assert_eq!(Property::I16(3).get_i32(), None);
    assert_eq!(Property::I16(3).extract_i16().unwrap(), 3);
    assert!(matches!(Property::I16(3).extract_i32(), Err(Property::I16(3))));
    assert_eq!(Property::I32(4).extract_i32().unwrap(), 4);
    assert_eq!(Property::I64(5).extract_i64().unwrap(), 5);
    assert!(Property::Bool(true).extract_bool().unwrap());
    assert_eq!(Property::VecBool(vec![true]).extract_vec_bool().unwrap(), vec![true]);
    assert_eq!(Property::VecI32(vec![1]).extract_vec_i32().unwrap(), vec![1]);
    assert_eq!(Property::VecI64(vec![2]).extract_vec_i64().unwrap(), vec![2]);
    assert!(matches!(Property::VecI32(vec![1]).extract_vec_i64(), Err(Property::VecI32(_))));
}

#[test]
fn array_header_and_decoding() {
    let bytes = [3u8, 0, 0, 0, 1, 0, 0, 0, 20, 0, 0, 0, 0xaa];
    let (h, len) = ArrayHeader::from_binary(&bytes).unwrap();
    assert_eq!((h.num_elements, h.encoding, h.compressed_length, len), (3, 1, 20, 12));
    assert!(ArrayHeader::from_binary(&bytes[..11]).is_none());
    let raw = [1u8, 0, 0, 0, 0xff, 0xff, 0xff, 0xff];
    let packed = zlib(&raw);
    let h = ArrayHeader { num_elements: 2, encoding: 1, compressed_length: packed.len() as u32 };
    let p = read_property_array(&packed, &h, b'i').unwrap();
    assert_eq!(p.get_vec_i32(), Some(&vec![1, -1]));
    let h = ArrayHeader { num_elements: 2, encoding: 7, compressed_length: 8 };
    assert!(read_property_array(&raw, &h, b'i').is_none());
    assert!(read_property_array(&raw, &h, b'I').is_none());
}

#[test]
fn text_decoding() {
    assert_eq!(decode_text("héllo".as_bytes()), Ok("héllo"));
    assert_eq!(decode_text(&[b'a', 0xc3]), Err(1));
    assert_eq!(decode_text(&[]), Ok(""));
}

#[test]
fn buffer_with_arrays_yields_every_value() {
    let mut bytes = array_property(b'b', 2, 0, &[b'Y', b'T']);
    bytes.extend(array_property(b'i', 2, 0, &[5, 0, 0, 0, 0xfe, 0xff, 0xff, 0xff]));
    bytes.extend_from_slice(&[b'Y', 9, 0]);
    bytes.extend(array_property(b'l', 0, 0, &[]));
    let props = buffer(bytes.clone(), 4);
    let values = collect(&props);
    assert_eq!(values.len(), 4);
    assert_eq!(values[0].get_vec_bool(), Some(&vec![true, false]));
    assert_eq!(values[1].get_vec_i32(), Some(&vec![5, -2]));
    assert_eq!(values[2].get_i16(), Some(9));
    assert_eq!(values[3].get_vec_i64(), Some(&vec![]));
    bytes.push(b'?');
    bytes.extend_from_slice(&[b'Y', 1, 0]);
    let props = buffer(bytes, 9);
    assert_eq!(collect(&props).len(), 4);
}
