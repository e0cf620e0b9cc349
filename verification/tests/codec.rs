use epee_storage::{from_bytes, serialized_size, to_bytes, ErrorKind, Section, SectionArray,
    SectionEntry};

fn signature() -> Vec<u8> {
    vec![0x01, 0x11, 0x01, 0x01, 0x01, 0x01, 0x02, 0x01, 0x01]
}

#[test]
fn serialize_byte_array() {
    // A record holding a 32-byte identifier filled with 24s encodes to a
    // fixed stream: signature, one field, key "txid", uint8-array tag,
    // varint 32, then the payload.
    let mut expected_bytes_vec = signature();
    expected_bytes_vec.extend_from_slice(&[0x04, 0x04, 0x74, 0x78, 0x69, 0x64, 0x88, 0x80]);
    expected_bytes_vec.extend_from_slice(&[24; 32]);

    let mut foobar = Section::new();
    foobar.set_array(b"txid".to_vec(), SectionArray::UInt8(vec![24; 32]));
    match to_bytes(&foobar) {
        Ok(foobytes) => assert_eq!(expected_bytes_vec, foobytes),
        Err(err) => panic!("Error: {:?}", err.kind()),
    }
}

#[test]
fn decode_byte_array_stream() {
    let mut bytes = signature();
    bytes.extend_from_slice(&[0x04, 0x04, 0x74, 0x78, 0x69, 0x64, 0x88, 0x80]);
    bytes.extend_from_slice(&[24; 32]);
    let s = from_bytes(&bytes).unwrap();
    assert_eq!(s.len(), 1);
    match s.get_array(b"txid") {
        Some(SectionArray::UInt8(v)) => assert_eq!(*v, vec![24u8; 32]),
        other => panic!("unexpected entry: {:?}", other),
    }
}

#[test]
fn empty_root_encodes_to_signature_and_zero() {
    let s = Section::new();
    let bytes = to_bytes(&s).unwrap();
    let mut expected = signature();
    expected.push(0x00);
    assert_eq!(bytes, expected);
    let back = from_bytes(&bytes).unwrap();
    assert_eq!(back.len(), 0);
}

#[test]
fn signed_32bit_vector() {
    let mut s = Section::new();
    s.insert(b"n".to_vec(), SectionEntry::Int32(-1));
    let bytes = to_bytes(&s).unwrap();
    let mut expected = signature();
    expected.extend_from_slice(&[0x04, 0x01, 0x6E, 0x02, 0xFF, 0xFF, 0xFF, 0xFF]);
    assert_eq!(bytes, expected);
}

#[test]
fn nested_section_vector() {
    let mut inner = Section::new();
    inner.insert(b"x".to_vec(), SectionEntry::UInt8(7));
    let mut s = Section::new();
    s.set_section(b"inner".to_vec(), inner);
    let bytes = to_bytes(&s).unwrap();
    let mut expected = signature();
    expected.extend_from_slice(&[
        0x04, 0x05, 0x69, 0x6E, 0x6E, 0x65, 0x72, 0x0C, 0x04, 0x01, 0x78, 0x08, 0x07,
    ]);
    assert_eq!(bytes, expected);
}

#[test]
fn bool_array_vector() {
    let mut s = Section::new();
    s.set_array(
        b"a".to_vec(),
        SectionArray::Bool(vec![true, false, false, false, true, true]),
    );
    let bytes = to_bytes(&s).unwrap();
    let mut expected = signature();
    expected.extend_from_slice(&[0x04, 0x01, 0x61, 0x8B, 0x18, 1, 0, 0, 0, 1, 1]);
    assert_eq!(bytes, expected);
}

#[test]
fn malformed_signature_rejected() {
    let mut bytes = signature();
    bytes[0] = 0x02;
    bytes.push(0x00);
    let err = from_bytes(&bytes).unwrap_err();
    assert_eq!(err.kind(), ErrorKind::ExpectedFormatSignature);
}

#[test]
fn roundtrip_structural_equality() {
    // One value exercising every kind of entry: scalars, a double's bit
    // pattern, strings, nested sections, and all three array families.
    let mut inner = Section::new();
    inner.set_u64(b"u".to_vec(), 18446744073709551615);
    inner.set_i64(b"i".to_vec(), -9223372036854775808);
    let mut s = Section::new();
    s.insert(b"i64".to_vec(), SectionEntry::Int64(-5));
    s.insert(b"i32".to_vec(), SectionEntry::Int32(-70000));
    s.insert(b"i16".to_vec(), SectionEntry::Int16(-300));
    s.insert(b"i8".to_vec(), SectionEntry::Int8(-3));
    s.insert(b"u64".to_vec(), SectionEntry::UInt64(1 << 40));
    s.insert(b"u32".to_vec(), SectionEntry::UInt32(70000));
    s.insert(b"u16".to_vec(), SectionEntry::UInt16(300));
    s.insert(b"u8".to_vec(), SectionEntry::UInt8(250));
    s.set_double_bits(b"d".to_vec(), 1.5f64.to_bits());
    s.set_blob(b"s".to_vec(), b"hello".to_vec());
    s.set_bool(b"b".to_vec(), true);
    s.set_section(b"obj".to_vec(), inner);
    s.set_array(b"ai".to_vec(), SectionArray::Int32(vec![-1, 0, 1]));
    s.set_array(
        b"ab".to_vec(),
        SectionArray::Blob(vec![b"one".to_vec(), b"".to_vec(), b"three".to_vec()]),
    );
    let mut o1 = Section::new();
    o1.set_u64(b"k".to_vec(), 1);
    let o2 = Section::new();
    s.set_array(b"ao".to_vec(), SectionArray::Object(vec![o1, o2]));

    let bytes = to_bytes(&s).unwrap();
    let back = from_bytes(&bytes).unwrap();
    assert_eq!(back, s);
}

#[test]
fn duplicate_keys_kept_in_order_and_last_wins() {
    let mut s = Section::new();
    s.set_u64(b"k".to_vec(), 1);
    s.set_u64(b"k".to_vec(), 2);
    assert_eq!(s.len(), 2);
    assert_eq!(s.get_u64(b"k"), Some(2));
    let bytes = to_bytes(&s).unwrap();
    let back = from_bytes(&bytes).unwrap();
    assert_eq!(back, s);
    assert_eq!(back.get_u64(b"k"), Some(2));
}

#[test]
fn getters_are_fail_soft() {
    let mut s = Section::new();
    s.set_bool(b"flag".to_vec(), false);
    assert_eq!(s.get_bool(b"flag"), Some(false));
    assert_eq!(s.get_u64(b"flag"), None);
    assert_eq!(s.get_u64(b"absent"), None);
    assert!(s.get_blob(b"flag").is_none());
}

#[test]
fn string_length_boundary() {
    // 2_000_000_000 bytes are admitted; one more is refused.  The counting
    // encoder measures the long value without building the stream.
    let mut ok = Section::new();
    ok.set_blob(b"s".to_vec(), vec![0u8; 2_000_000_000]);
    let size = serialized_size(&ok).unwrap();
    assert_eq!(size, 2_000_000_021);

    let mut bad = Section::new();
    bad.set_blob(b"s".to_vec(), vec![0u8; 2_000_000_001]);
    let err = to_bytes(&bad).unwrap_err();
    assert_eq!(err.kind(), ErrorKind::StringTooLong);
    let err2 = serialized_size(&bad).unwrap_err();
    assert_eq!(err2.kind(), ErrorKind::StringTooLong);
}

#[test]
fn too_many_section_fields_rejected() {
    let mut s = Section::new();
    for i in 0..10001u32 {
        let mut key = b"k".to_vec();
        key.extend_from_slice(&i.to_le_bytes());
        s.set_u64(key, 0);
    }
    let err = to_bytes(&s).unwrap_err();
    assert_eq!(err.kind(), ErrorKind::TooManySectionFields);
    let err2 = serialized_size(&s).unwrap_err();
    assert_eq!(err2.kind(), ErrorKind::TooManySectionFields);

    // The decoder refuses the same count announced on the wire:
    // varint(10001) = (10001 << 2) | 1 = 40005 = 0x9C45, little-endian.
    let mut bytes = signature();
    bytes.extend_from_slice(&[0x45, 0x9C]);
    let err3 = from_bytes(&bytes).unwrap_err();
    assert_eq!(err3.kind(), ErrorKind::TooManySectionFields);
}

#[test]
fn bad_type_code_rejected() {
    for tag in [0x00u8, 0x0D, 0x7F] {
        let mut bytes = signature();
        bytes.extend_from_slice(&[0x04, 0x01, 0x78, tag]);
        let err = from_bytes(&bytes).unwrap_err();
        assert_eq!(err.kind(), ErrorKind::BadTypeCode, "tag {:#x}", tag);
    }
}

#[test]
fn oversized_string_on_the_wire_rejected() {
    // A string entry announcing 2_000_000_001 bytes: the length varint is
    // (2000000001 << 2) | 3, little-endian over 8 bytes.
    let mut bytes = signature();
    bytes.extend_from_slice(&[0x04, 0x01, 0x78, 0x0A]);
    bytes.extend_from_slice(&8000000007u64.to_le_bytes());
    let err = from_bytes(&bytes).unwrap_err();
    assert_eq!(err.kind(), ErrorKind::StringTooLong);
}

#[test]
fn encoded_length_equals_serialized_size() {
    let mut s = Section::new();
    s.set_blob(b"name".to_vec(), b"portable storage".to_vec());
    s.set_u64(b"count".to_vec(), 1073741824);
    s.set_array(b"data".to_vec(), SectionArray::UInt16(vec![1, 2, 3, 4]));
    let mut inner = Section::new();
    inner.set_bool(b"deep".to_vec(), true);
    s.set_section(b"obj".to_vec(), inner);
    let bytes = to_bytes(&s).unwrap();
    assert_eq!(bytes.len(), serialized_size(&s).unwrap());
}

#[test]
fn empty_key_rejected_both_ways() {
    let mut s = Section::new();
    s.set_u64(Vec::new(), 1);
    let err = to_bytes(&s).unwrap_err();
    assert_eq!(err.kind(), ErrorKind::EmptySectionKey);

    // On the wire: one field whose key length byte is 0.
    let mut bytes = signature();
    bytes.extend_from_slice(&[0x04, 0x00]);
    let err2 = from_bytes(&bytes).unwrap_err();
    assert_eq!(err2.kind(), ErrorKind::EmptySectionKey);
}

#[test]
fn long_key_rejected() {
    let mut s = Section::new();
    s.set_u64(vec![0x61; 256], 1);
    let err = to_bytes(&s).unwrap_err();
    assert_eq!(err.kind(), ErrorKind::KeyTooLong);
}

#[test]
fn array_too_long_rejected() {
    let mut s = Section::new();
    s.set_array(b"a".to_vec(), SectionArray::UInt8(vec![0; 10001]));
    let err = to_bytes(&s).unwrap_err();
    assert_eq!(err.kind(), ErrorKind::ArrayTooLong);
}

#[test]
fn truncated_input_reports_io_error() {
    let mut s = Section::new();
    s.set_u64(b"k".to_vec(), 500);
    let bytes = to_bytes(&s).unwrap();
    let err = from_bytes(&bytes[..bytes.len() - 1]).unwrap_err();
    assert_eq!(err.kind(), ErrorKind::IOError);
    let err2 = from_bytes(&bytes[..4]).unwrap_err();
    assert_eq!(err2.kind(), ErrorKind::IOError);
}

#[test]
fn trailing_bytes_are_ignored() {
    let mut s = Section::new();
    s.set_bool(b"k".to_vec(), true);
    let mut bytes = to_bytes(&s).unwrap();
    bytes.extend_from_slice(&[0xAA, 0xBB]);
    let back = from_bytes(&bytes).unwrap();
    assert_eq!(back, s);
}

#[test]
fn array_of_objects_roundtrip() {
    // The tag 0x8C announces an array of sections; each element is a
    // length-prefixed section body without its own tag byte.
    let mut a = Section::new();
    a.set_u64(b"v".to_vec(), 1);
    let mut b = Section::new();
    b.set_u64(b"v".to_vec(), 2);
    let mut s = Section::new();
    s.set_array(b"list".to_vec(), SectionArray::Object(vec![a, b]));
    let bytes = to_bytes(&s).unwrap();
    let mut expected = signature();
    expected.extend_from_slice(&[
        0x04, 0x04, 0x6C, 0x69, 0x73, 0x74, 0x8C, 0x08, 0x04, 0x01, 0x76, 0x05, 1, 0, 0, 0, 0,
        0, 0, 0, 0x04, 0x01, 0x76, 0x05, 2, 0, 0, 0, 0, 0, 0, 0,
    ]);
    assert_eq!(bytes, expected);
    let back = from_bytes(&bytes).unwrap();
    assert_eq!(back, s);
}

#[test]
fn double_bits_roundtrip_exactly() {
    let mut s = Section::new();
    s.set_double_bits(b"d".to_vec(), (-0.1f64).to_bits());
    s.set_array(
        b"ds".to_vec(),
        SectionArray::Double(vec![0.0f64.to_bits(), f64::INFINITY.to_bits()]),
    );
    let bytes = to_bytes(&s).unwrap();
    let back = from_bytes(&bytes).unwrap();
    assert_eq!(back, s);
    assert_eq!(back.get_double_bits(b"d"), Some((-0.1f64).to_bits()));
}
