use proto_probe::decode::{DecodedValue, Decoder, DecodingResult, WireType};
use proto_probe::simplify::{
    byte_list_text, readable_text, simplify, value_text, wire_type_to_str, SimpleDecodedValue,
    SimpleDecodingResult,
};

fn sample() -> DecodingResult {
    // field 1 varint 150, field 2 "testing", field 3 nested {field 1 varint 5}
    let mut bytes = vec![0x08, 0x96, 0x01, 0x12, 0x07];
    bytes.extend_from_slice(b"testing");
    bytes.extend_from_slice(&[0x1a, 0x02, 0x08, 0x05]);
    Decoder::new(bytes).decode().unwrap()
}

fn render(r: &SimpleDecodingResult) -> String {
    format!("{:?}", r)
}

#[test]
fn wire_type_labels() {
    assert_eq!(wire_type_to_str(WireType::VarInt), "varint");
    assert_eq!(wire_type_to_str(WireType::I64), "i64");
    assert_eq!(wire_type_to_str(WireType::Len), "len");
    assert_eq!(wire_type_to_str(WireType::I32), "i32");
    assert_eq!(wire_type_to_str(WireType::SGroup), "unknown");
    assert_eq!(wire_type_to_str(WireType::EGroup), "unknown");
}

#[test]
fn byte_listing_text() {
    assert_eq!(byte_list_text(&vec![]), "[]");
    assert_eq!(byte_list_text(&vec![7]), "[7]");
    assert_eq!(byte_list_text(&vec![116, 0, 255]), "[116, 0, 255]");
}

#[test]
fn value_texts() {
    assert_eq!(value_text(&DecodedValue::BigInt(150)), "150");
    assert_eq!(value_text(&DecodedValue::BigInt(-3)), "-3");
    assert_eq!(value_text(&DecodedValue::BigInt(i128::MIN)), i128::MIN.to_string());
    assert_eq!(value_text(&DecodedValue::Buffer(vec![104, 105])), "[104, 105]");
}

#[test]
fn readable_texts() {
    assert_eq!(readable_text(&DecodedValue::Buffer(b"testing".to_vec())), "testing");
    assert_eq!(readable_text(&DecodedValue::Buffer(vec![0xff, 0x01])), "[255, 1]");
    assert_eq!(readable_text(&DecodedValue::Buffer(vec![])), "");
    assert_eq!(readable_text(&DecodedValue::BigInt(42)), "42");
}

#[test]
fn simplify_renders_fields() {
    let s = simplify(sample());
    assert_eq!(s.fields.len(), 3);
    assert_eq!(s.fields[0].field, 1);
    assert_eq!(s.fields[0].wire_type, "varint");
    assert!(!s.fields[0].is_object);
    assert!(matches!(&s.fields[0].value, SimpleDecodedValue::String(t) if t == "150"));
    assert_eq!(s.fields[1].wire_type, "len");
    assert!(matches!(&s.fields[1].value,
        SimpleDecodedValue::String(t) if t == "[116, 101, 115, 116, 105, 110, 103]"));
    assert!(s.fields[2].is_object);
    match &s.fields[2].value {
        SimpleDecodedValue::Nested(inner) => {
            assert_eq!(inner.fields.len(), 1);
            assert_eq!(inner.fields[0].wire_type, "varint");
            assert!(matches!(&inner.fields[0].value, SimpleDecodedValue::String(t) if t == "5"));
        }
        _ => panic!("expected a nested result"),
    }
}

#[test]
fn simplify_twice_gives_same_tree() {
    let first = simplify(sample());
    let second = simplify(sample());
    assert_eq!(render(&first), render(&second));
}

#[test]
fn simplify_twice_on_clones() {
    let r = sample();
    let first = simplify(r.clone());
    let second = simplify(r);
    assert_eq!(render(&first), render(&second));
    assert_eq!(render(&first.clone()), render(&first));
}

#[test]
fn clone_keeps_nested_tree() {
    let r = sample();
    let c = r.clone();
    assert_eq!(format!("{:?}", c), format!("{:?}", r));
    assert_eq!(format!("{:?}", r.fields[2].clone()), format!("{:?}", r.fields[2]));
    assert_eq!(format!("{:?}", r.fields[2].value.clone()), format!("{:?}", r.fields[2].value));
}

#[test]
fn simplify_empty_result() {
    let s = simplify(Decoder::new(vec![]).decode().unwrap());
    assert!(s.fields.is_empty());
}
