use epee_storage::byte_counter::ByteCounter;
use epee_storage::de::{Deserializer, EpeeScalarType};
use epee_storage::ser::{EpeeStorageFormat, Serializer};
use epee_storage::{ErrorKind, VarInt};

fn varint_bytes_of(v: u64) -> Vec<u8> {
    let vi = VarInt::try_from_u64(v).unwrap();
    let mut out = Vec::new();
    vi.to_writer(&mut out).unwrap();
    out
}

#[test]
fn varint_roundtrip_at_width_boundaries() {
    // Each boundary value selects the announced width, and reads back.
    let cases: [(u64, usize); 8] = [
        (0, 1),
        (63, 1),
        (64, 2),
        (16383, 2),
        (16384, 4),
        (1073741823, 4),
        (1073741824, 8),
        (4611686018427387903, 8),
    ];
    for (v, width) in cases {
        let bytes = varint_bytes_of(v);
        assert_eq!(bytes.len(), width, "width for {}", v);
        let mut pos = 0;
        let back = VarInt::from_reader(&bytes, &mut pos).unwrap();
        assert_eq!(back.value(), v);
        assert_eq!(pos, width);
    }
}

#[test]
fn varint_value_too_big_rejected() {
    let err = VarInt::try_from_u64(4611686018427387904).unwrap_err();
    assert_eq!(err.kind(), ErrorKind::VarIntTooBig);
    assert!(VarInt::try_from_usize(10000).is_ok());
}

#[test]
fn varint_noncanonical_widths_accepted() {
    // The value 1 written over 2, 4 and 8 bytes instead of 1: the decoder
    // accepts any announced width and yields the shifted value.
    let wide2: [u8; 2] = [0x05, 0x00];
    let wide4: [u8; 4] = [0x06, 0x00, 0x00, 0x00];
    let wide8: [u8; 8] = [0x07, 0x00, 0x00, 0x00, 0x00, 0x00, 0x00, 0x00];
    for bytes in [&wide2[..], &wide4[..], &wide8[..]] {
        let mut pos = 0;
        let back = VarInt::from_reader(bytes, &mut pos).unwrap();
        assert_eq!(back.value(), 1);
        assert_eq!(pos, bytes.len());
    }
}

#[test]
fn varint_truncated_input_rejected() {
    // A discriminant announcing 4 bytes with only 2 present.
    let bytes: [u8; 2] = [0x06, 0x00];
    let mut pos = 0;
    let err = VarInt::from_reader(&bytes, &mut pos).unwrap_err();
    assert_eq!(err.kind(), ErrorKind::IOError);
    assert_eq!(pos, 0);
}

#[test]
fn scalar_type_codes() {
    assert_eq!(
        EpeeScalarType::from_type_code(1).unwrap(),
        EpeeScalarType::Int64
    );
    assert_eq!(
        EpeeScalarType::from_type_code(0x8A & 0x7F).unwrap(),
        EpeeScalarType::Str
    );
    assert_eq!(
        EpeeScalarType::from_type_code(12).unwrap(),
        EpeeScalarType::Object
    );
    assert_eq!(
        EpeeScalarType::from_type_code(0).unwrap_err().kind(),
        ErrorKind::BadTypeCode
    );
    assert_eq!(
        EpeeScalarType::from_type_code(13).unwrap_err().kind(),
        ErrorKind::BadTypeCode
    );
}

#[test]
fn deserializer_primitives_walk_a_stream() {
    // 01 6E: key "n"; then an i32 -1 payload after its tag.
    let input = vec![0x01, 0x6E, 0x02, 0xFF, 0xFF, 0xFF, 0xFF];
    let mut de = Deserializer::from_reader(input);
    let key = de.parse_string_key().unwrap();
    assert_eq!(key, b"n".to_vec());
    let t = de.parse_type_code().unwrap();
    assert_eq!(t.scalar_type, EpeeScalarType::Int32);
    assert!(!t.is_array);
    assert_eq!(de.parse_i32().unwrap(), -1);
    assert_eq!(de.position(), 7);
}

#[test]
fn deserializer_reads_numbers_little_endian() {
    let input = vec![0x01, 0x02, 0x34, 0x12, 0x78, 0x56, 0x34, 0x12, 0x01, 0x00];
    let mut de = Deserializer::from_reader(input);
    assert_eq!(de.parse_u8().unwrap(), 0x01);
    assert_eq!(de.parse_i8().unwrap(), 0x02);
    assert_eq!(de.parse_u16().unwrap(), 0x1234);
    assert_eq!(de.parse_u32().unwrap(), 0x12345678);
    assert_eq!(de.parse_bool().unwrap(), true);
    assert_eq!(de.parse_bool().unwrap(), false);
    let err = de.read_single().unwrap_err();
    assert_eq!(err.kind(), ErrorKind::IOError);
}

#[test]
fn deserializer_validates_signature() {
    let good = vec![0x01, 0x11, 0x01, 0x01, 0x01, 0x01, 0x02, 0x01, 0x01];
    let mut de = Deserializer::from_reader(good);
    assert_eq!(de.validate_signature().unwrap(), true);
    let bad = vec![0x01, 0x11, 0x01, 0x01, 0x01, 0x01, 0x02, 0x01, 0x02];
    let mut de2 = Deserializer::from_reader(bad);
    assert_eq!(de2.validate_signature().unwrap(), false);
}

#[test]
fn frame_array_rejects_mixed_types() {
    // Writing heterogeneous elements into one array frame fails with
    // ArrayMixedTypes at the first mismatching element, after the first
    // element fixed the array's type.
    let mut out = Vec::new();
    let mut frame = Serializer::new_array(2).unwrap();
    frame.serialize_u8(&mut out, 7).unwrap();
    let before = out.clone();
    let err = frame.serialize_u16(&mut out, 7).unwrap_err();
    assert_eq!(err.kind(), ErrorKind::ArrayMixedTypes);
    assert_eq!(out, before);
}

#[test]
fn frame_section_writes_tagged_scalars() {
    // A section frame of one pair: prologue 0x0C + varint, then the key,
    // then a tagged u32.
    let mut out = Vec::new();
    let mut frame = Serializer::new_section(1).unwrap();
    frame.serialize_key_start(&mut out).unwrap();
    frame.serialize_bytes(&mut out, b"id").unwrap();
    frame.serialize_u32(&mut out, 0xDDCCBBAA).unwrap();
    assert_eq!(
        out,
        vec![0x0C, 0x04, 0x02, 0x69, 0x64, 0x06, 0xAA, 0xBB, 0xCC, 0xDD]
    );
}

#[test]
fn frame_root_section_emits_signature() {
    let mut out = Vec::new();
    let mut frame = Serializer::new_root_section(1).unwrap();
    frame.serialize_key_start(&mut out).unwrap();
    frame.serialize_bytes(&mut out, b"b").unwrap();
    frame.serialize_bool(&mut out, true).unwrap();
    assert_eq!(
        out,
        vec![0x01, 0x11, 0x01, 0x01, 0x01, 0x01, 0x02, 0x01, 0x01, 0x04, 0x01, 0x62, 0x0B, 0x01]
    );
}

#[test]
fn frame_key_position_requires_string() {
    let mut out = Vec::new();
    let mut frame = Serializer::new_section(1).unwrap();
    frame.serialize_key_start(&mut out).unwrap();
    let err = frame.serialize_u8(&mut out, 3).unwrap_err();
    assert_eq!(err.kind(), ErrorKind::KeyBadType);
}

#[test]
fn frame_rejects_unrepresentable_compounds() {
    let array_frame = Serializer::new_array(1).unwrap();
    assert_eq!(
        array_frame.serialize_seq(Some(1)).unwrap_err().kind(),
        ErrorKind::NestedArrays
    );
    let section_frame = Serializer::new_section(1).unwrap();
    assert_eq!(
        section_frame.serialize_seq(None).unwrap_err().kind(),
        ErrorKind::NoLength
    );
    assert_eq!(
        section_frame.serialize_seq(Some(10001)).unwrap_err().kind(),
        ErrorKind::ArrayTooLong
    );
    assert_eq!(
        section_frame.serialize_tuple(10001).unwrap_err().kind(),
        ErrorKind::TupleTooLong
    );
    assert_eq!(
        Serializer::new_section(10001).unwrap_err().kind(),
        ErrorKind::TooManySectionFields
    );
    let unstarted = Serializer::new_unstarted();
    let root = unstarted.serialize_map(Some(0)).unwrap();
    assert_eq!(root.storage_format, EpeeStorageFormat::RootSection);
}

#[test]
fn frame_packed_emits_raw_payloads() {
    // A packed frame writes neither tag nor length: payloads back to back.
    let mut out = Vec::new();
    let mut frame = Serializer::new_packed(2).unwrap();
    frame.serialize_u8(&mut out, 0x11).unwrap();
    frame.serialize_u8(&mut out, 0x22).unwrap();
    assert_eq!(out, vec![0x11, 0x22]);
}

#[test]
fn byte_counter_counts() {
    let mut c = ByteCounter::new();
    assert_eq!(c.bytes_written(), 0);
    assert_eq!(c.write(&[1, 2, 3]), 3);
    assert_eq!(c.write(&[]), 0);
    c.flush();
    assert_eq!(c.bytes_written(), 3);
}
