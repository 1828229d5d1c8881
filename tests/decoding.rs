use proto_probe::decode::{DecodeError, DecodedValue, Decoder, DecodingResult, WireType};

fn decode_all(bytes: Vec<u8>) -> Result<DecodingResult, DecodeError> {
    Decoder::new(bytes).decode()
}

fn varint_of(bytes: Vec<u8>) -> i128 {
    Decoder::new(bytes).next_varint().unwrap()
}

#[test]
fn varint_round_trip_values() {
    assert_eq!(varint_of(vec![0x00]), 0);
    assert_eq!(varint_of(vec![0x7f]), 127);
    assert_eq!(varint_of(vec![0x80, 0x01]), 128);
    assert_eq!(varint_of(vec![0xac, 0x02]), 300);
    assert_eq!(varint_of(vec![0x80, 0x80, 0x80, 0x80, 0x20]), 1i128 << 33);
}

#[test]
fn varint_stops_after_last_group() {
    let mut d = Decoder::new(vec![0xac, 0x02, 0x05]);
    assert_eq!(d.next_varint().unwrap(), 300);
    assert_eq!(d.remaining(), 1);
    assert_eq!(d.next_varint().unwrap(), 5);
    assert_eq!(d.remaining(), 0);
}

#[test]
fn varint_past_end_is_exhausted() {
    let mut d = Decoder::new(vec![0x80, 0x80]);
    assert_eq!(d.next_varint().unwrap_err(), DecodeError::BufferExhausted);
    let mut e = Decoder::new(vec![]);
    assert_eq!(e.next_varint().unwrap_err(), DecodeError::BufferExhausted);
}

#[test]
fn varint_wraps_into_signed_width() {
    // 2^127 sets the sign bit of the 128-bit accumulator.
    let mut bytes = vec![0x80u8; 18];
    bytes.push(0x02);
    assert_eq!(varint_of(bytes), i128::MIN);
    // Groups past the accumulator's width are dropped.
    let mut long = vec![0x81u8];
    long.extend(vec![0x80u8; 19]);
    long.push(0x01);
    assert_eq!(varint_of(long), 1);
}

#[test]
fn wire_type_codes() {
    assert_eq!(WireType::from_u8(0).unwrap(), WireType::VarInt);
    assert_eq!(WireType::from_u8(1).unwrap(), WireType::I64);
    assert_eq!(WireType::from_u8(2).unwrap(), WireType::Len);
    assert_eq!(WireType::from_u8(5).unwrap(), WireType::I32);
    assert_eq!(WireType::from_u8(3).unwrap(), WireType::SGroup);
    assert_eq!(WireType::from_u8(4).unwrap(), WireType::EGroup);
    assert_eq!(WireType::from_u8(6).unwrap_err(), DecodeError::UnsupportedWireType(6));
    assert_eq!(WireType::from_u8(7).unwrap_err(), DecodeError::UnsupportedWireType(7));
}

#[test]
fn read_and_next_byte() {
    let mut d = Decoder::new(vec![1, 2, 3]);
    assert_eq!(d.next_byte().unwrap(), 1);
    assert_eq!(d.read(2).unwrap(), vec![2, 3]);
    assert_eq!(d.read(1).unwrap_err(), DecodeError::BufferExhausted);
    assert_eq!(d.next_byte().unwrap_err(), DecodeError::BufferExhausted);
    assert_eq!(d.read(0).unwrap(), Vec::<u8>::new());
}

#[test]
fn varint_then_text_fields() {
    let mut bytes = vec![0x08, 0x96, 0x01, 0x12, 0x07];
    bytes.extend_from_slice(b"testing");
    let r = decode_all(bytes).unwrap();
    assert_eq!(r.fields.len(), 2);
    assert!(r.unprocessed.is_empty());
    let f0 = &r.fields[0];
    assert_eq!(f0.field, 1);
    assert_eq!(f0.wire_type, WireType::VarInt);
    assert!(!f0.is_object);
    assert!(matches!(f0.value, DecodedValue::BigInt(150)));
    let f1 = &r.fields[1];
    assert_eq!(f1.field, 2);
    assert_eq!(f1.wire_type, WireType::Len);
    assert!(!f1.is_object);
    match &f1.value {
        DecodedValue::Buffer(b) => assert_eq!(b.as_slice(), b"testing"),
        _ => panic!("expected raw bytes"),
    }
}

#[test]
fn nested_message_field() {
    let r = decode_all(vec![0x0a, 0x02, 0x08, 0x05]).unwrap();
    assert_eq!(r.fields.len(), 1);
    let f = &r.fields[0];
    assert_eq!(f.field, 1);
    assert_eq!(f.wire_type, WireType::Len);
    assert!(f.is_object);
    match &f.value {
        DecodedValue::Nested(inner) => {
            assert_eq!(inner.fields.len(), 1);
            assert_eq!(inner.fields[0].field, 1);
            assert_eq!(inner.fields[0].wire_type, WireType::VarInt);
            assert!(!inner.fields[0].is_object);
            assert!(matches!(inner.fields[0].value, DecodedValue::BigInt(5)));
            assert!(inner.unprocessed.is_empty());
        }
        _ => panic!("expected a nested message"),
    }
}

#[test]
fn nested_equals_independent_decode() {
    let payload = vec![0x08, 0x05, 0x12, 0x01, 0x41];
    let mut bytes = vec![0x1a, payload.len() as u8];
    bytes.extend_from_slice(&payload);
    let outer = decode_all(bytes).unwrap();
    let alone = Decoder::with_max_depth(payload, 63).decode().unwrap();
    match &outer.fields[0].value {
        DecodedValue::Nested(inner) => {
            assert_eq!(format!("{:?}", inner), format!("{:?}", alone));
        }
        _ => panic!("expected a nested message"),
    }
}

#[test]
fn text_payload_stays_raw() {
    // Read as a message, 'h' (0x68) is a varint tag of field 13, 'e' its
    // value, and 'l' (0x6c) a group tag, which fails the nested attempt.
    let text = b"hello, world!".to_vec();
    let mut bytes = vec![0x0a, text.len() as u8];
    bytes.extend_from_slice(&text);
    let r = decode_all(bytes).unwrap();
    assert_eq!(r.fields.len(), 1);
    assert!(!r.fields[0].is_object);
    match &r.fields[0].value {
        DecodedValue::Buffer(b) => assert_eq!(b, &text),
        _ => panic!("expected raw bytes"),
    }
}

#[test]
fn group_tags_are_unsupported() {
    assert_eq!(decode_all(vec![0x0b]).unwrap_err(), DecodeError::UnsupportedWireType(3));
    assert_eq!(decode_all(vec![0x0c, 0x00]).unwrap_err(), DecodeError::UnsupportedWireType(4));
    assert_eq!(decode_all(vec![0x0e]).unwrap_err(), DecodeError::UnsupportedWireType(6));
    assert_eq!(decode_all(vec![0x08, 0x01, 0x0f]).unwrap_err(), DecodeError::UnsupportedWireType(7));
}

#[test]
fn group_tag_after_fields_fails_whole_decode() {
    assert_eq!(decode_all(vec![0x08, 0x01, 0x12, 0x00, 0x1b, 0xff]).unwrap_err(),
        DecodeError::UnsupportedWireType(3));
    assert_eq!(decode_all(vec![0x08, 0x01, 0x0a, 0x05, 0x01]).unwrap_err(),
        DecodeError::BufferExhausted);
}

#[test]
fn length_past_end_is_exhausted() {
    assert_eq!(decode_all(vec![0x0a, 0x05, 0x01, 0x02]).unwrap_err(), DecodeError::BufferExhausted);
}

#[test]
fn length_past_end_inside_payload_falls_back() {
    let inner = vec![0x0a, 0x05, 0x01, 0x02];
    let mut bytes = vec![0x12, inner.len() as u8];
    bytes.extend_from_slice(&inner);
    let r = decode_all(bytes).unwrap();
    assert_eq!(r.fields.len(), 1);
    assert_eq!(r.fields[0].field, 2);
    assert!(!r.fields[0].is_object);
    match &r.fields[0].value {
        DecodedValue::Buffer(b) => assert_eq!(b, &inner),
        _ => panic!("expected raw bytes"),
    }
}

#[test]
fn fixed_width_fields() {
    let r = decode_all(vec![0x0d, 1, 2, 3, 4, 0x11, 1, 2, 3, 4, 5, 6, 7, 8]).unwrap();
    assert_eq!(r.fields.len(), 2);
    assert_eq!(r.fields[0].wire_type, WireType::I32);
    assert!(matches!(&r.fields[0].value, DecodedValue::Buffer(b) if b == &vec![1, 2, 3, 4]));
    assert_eq!(r.fields[1].field, 2);
    assert_eq!(r.fields[1].wire_type, WireType::I64);
    assert!(matches!(&r.fields[1].value, DecodedValue::Buffer(b) if b.len() == 8));
    assert_eq!(decode_all(vec![0x0d, 1, 2, 3]).unwrap_err(), DecodeError::BufferExhausted);
    assert_eq!(decode_all(vec![0x09, 1]).unwrap_err(), DecodeError::BufferExhausted);
}

#[test]
fn truncated_tag_is_exhausted() {
    assert_eq!(decode_all(vec![0x88]).unwrap_err(), DecodeError::BufferExhausted);
    assert_eq!(decode_all(vec![0x08]).unwrap_err(), DecodeError::BufferExhausted);
}

#[test]
fn empty_buffer_decodes_to_nothing() {
    let r = decode_all(vec![]).unwrap();
    assert!(r.fields.is_empty());
    assert!(r.unprocessed.is_empty());
}

#[test]
fn repeated_fields_keep_order() {
    let r = decode_all(vec![0x08, 0x01, 0x08, 0x02, 0x10, 0x03]).unwrap();
    let nums: Vec<(u32, i128)> = r
        .fields
        .iter()
        .map(|f| match f.value {
            DecodedValue::BigInt(n) => (f.field, n),
            _ => panic!("expected integers"),
        })
        .collect();
    assert_eq!(nums, vec![(1, 1), (1, 2), (2, 3)]);
}

#[test]
fn depth_limit_keeps_payload_raw() {
    let bytes = vec![0x0a, 0x02, 0x08, 0x05];
    let r = Decoder::with_max_depth(bytes.clone(), 0).decode().unwrap();
    assert!(!r.fields[0].is_object);
    assert!(matches!(&r.fields[0].value, DecodedValue::Buffer(b) if b == &vec![0x08, 0x05]));
    let deeper = Decoder::with_max_depth(bytes, 1).decode().unwrap();
    assert!(deeper.fields[0].is_object);
}

#[test]
fn large_field_number_and_tag_truncation() {
    // Field 2^28 + 1 as a varint: tag = (2^28 + 1) << 3.
    let r = decode_all(vec![0x88, 0x80, 0x80, 0x80, 0x08, 0x07]).unwrap();
    assert_eq!(r.fields[0].field, (1 << 28) + 1);
    assert!(matches!(r.fields[0].value, DecodedValue::BigInt(7)));
}
