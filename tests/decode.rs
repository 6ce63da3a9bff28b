use der_reader::element::{decode, Content, Element, Value};
use der_reader::error::DecodeError;
use der_reader::header::read_header;
use der_reader::tag::{Class, Style, UniversalType};
use der_reader::value::{decode_bytes, decode_integer, decode_object_identifier, decode_text};

fn value_of(e: &Element) -> &Value {
    match &e.content {
        Content::Value(v) => v,
        Content::Children(_) => panic!("expected a value"),
    }
}

fn children_of(e: &Element) -> &Vec<Element> {
    match &e.content {
        Content::Children(c) => c,
        Content::Value(_) => panic!("expected children"),
    }
}

fn decode_err(bytes: &[u8]) -> DecodeError {
    match decode(bytes) {
        Ok(_) => panic!("expected an error"),
        Err(e) => e,
    }
}

#[test]
fn short_form_length_takes_one_byte() {
    let bytes = [0x04, 0x05, 1, 2, 3, 4, 5];
    let h = read_header(&bytes).unwrap();
    assert_eq!(h.header_len, 2);
    assert_eq!(h.length, 5);
    assert_eq!(h.class, Class::Universal);
    assert_eq!(h.style, Style::Primitive);
    assert_eq!(h.tag, 4);
    let max = [0x04, 0x7F];
    let mut long = max.to_vec();
    long.extend(vec![0u8; 127]);
    let h = read_header(&long).unwrap();
    assert_eq!(h.header_len, 2);
    assert_eq!(h.length, 127);
}

#[test]
fn long_form_length_is_big_endian() {
    let mut bytes = vec![0x04, 0x82, 0x01, 0x00];
    bytes.extend(vec![0u8; 256]);
    let h = read_header(&bytes).unwrap();
    assert_eq!(h.header_len, 4);
    assert_eq!(h.length, 256);
    let mut bytes = vec![0x04, 0x81, 0x80];
    bytes.extend(vec![0u8; 128]);
    let h = read_header(&bytes).unwrap();
    assert_eq!(h.header_len, 3);
    assert_eq!(h.length, 128);
}

#[test]
fn header_errors() {
    assert_eq!(read_header(&[]), Err(DecodeError::TruncatedInput));
    assert_eq!(read_header(&[0x30]), Err(DecodeError::TruncatedInput));
    assert_eq!(read_header(&[0x1F, 0x01, 0x00]), Err(DecodeError::UnsupportedEncoding));
    assert_eq!(read_header(&[0x30, 0x80, 0x00, 0x00]), Err(DecodeError::UnsupportedEncoding));
    assert_eq!(read_header(&[0x04, 0x82, 0x01]), Err(DecodeError::TruncatedInput));
    assert_eq!(read_header(&[0x04, 0x03, 0x01]), Err(DecodeError::TruncatedInput));
    let huge = [0x04, 0x88, 0xFF, 0xFF, 0xFF, 0xFF, 0xFF, 0xFF, 0xFF, 0xFF, 0x00];
    assert_eq!(read_header(&huge), Err(DecodeError::TruncatedInput));
}

#[test]
fn top_level_elements_cover_input() {
    let bytes = [0x02, 0x02, 0x00, 0x05, 0x04, 0x81, 0x03, 0xAA, 0xBB, 0xCC, 0x30, 0x00];
    let es = decode(&bytes).unwrap();
    assert_eq!(es.len(), 3);
    let total: usize = es.iter().map(|e| e.header_len + e.length).sum();
    assert_eq!(total, bytes.len());
}

#[test]
fn pkcs_oid_round_trips() {
    let bytes = [0x06, 0x06, 0x2A, 0x86, 0x48, 0x86, 0xF7, 0x0D];
    let es = decode(&bytes).unwrap();
    assert_eq!(es.len(), 1);
    assert_eq!(es[0].universal_type(), Some(UniversalType::ObjectIdentifier));
    assert_eq!(value_of(&es[0]), &Value::ObjectIdentifier(vec![1, 2, 840, 113549]));
}

#[test]
fn oid_edge_cases() {
    assert_eq!(decode_object_identifier(&[]), Ok(vec![]));
    assert_eq!(decode_object_identifier(&[0x55, 0x04, 0x03]), Ok(vec![2, 5, 4, 3]));
    assert_eq!(decode_object_identifier(&[0x2A, 0x86]), Ok(vec![1, 2]));
    let big = [0x2A, 0x82, 0x80, 0x80, 0x80, 0x80, 0x80, 0x80, 0x80, 0x80, 0x00];
    assert_eq!(decode_object_identifier(&big), Err(DecodeError::UnsupportedEncoding));
    let fits = [0x2A, 0x81, 0xFF, 0xFF, 0xFF, 0xFF, 0xFF, 0xFF, 0xFF, 0xFF, 0x7F];
    assert_eq!(decode_object_identifier(&fits), Ok(vec![1, 2, u64::MAX]));
}

#[test]
fn integer_lengths() {
    assert_eq!(decode_integer(&[0x00, 0x00, 0x00, 0x01]), Ok(1));
    assert_eq!(decode_integer(&[]), Ok(0));
    assert_eq!(decode_integer(&[0x01, 0x02, 0x03]), Err(DecodeError::UnsupportedEncoding));
    assert_eq!(decode_integer(&[0x01]), Err(DecodeError::UnsupportedEncoding));
    assert_eq!(decode_integer(&[0x01, 0x00]), Ok(256));
    assert_eq!(decode_integer(&[0xFF, 0xFE]), Ok(-2));
    assert_eq!(decode_integer(&[0x80, 0x00, 0x00, 0x00]), Ok(-2147483648));
    assert_eq!(decode_integer(&[0x7F, 0xFF, 0xFF, 0xFF, 0xFF, 0xFF, 0xFF, 0xFF]), Ok(i64::MAX));
    assert_eq!(decode_integer(&[0x00, 0x00, 0x00, 0x00, 0x00, 0x01, 0x02, 0x03]), Ok(0x010203));
}

#[test]
fn integer_element() {
    let es = decode(&[0x02, 0x04, 0x00, 0x00, 0x00, 0x01]).unwrap();
    assert_eq!(value_of(&es[0]), &Value::Integer(1));
    assert_eq!(es[0].payload, vec![0, 0, 0, 1]);
    assert_eq!(decode_err(&[0x02, 0x03, 0x00, 0x00, 0x01]), DecodeError::UnsupportedEncoding);
}

#[test]
fn sequence_of_two_integers() {
    let bytes = [0x30, 0x08, 0x02, 0x02, 0x00, 0x05, 0x02, 0x02, 0x00, 0x07];
    let es = decode(&bytes).unwrap();
    assert_eq!(es.len(), 1);
    assert_eq!(es[0].class, Class::Universal);
    assert_eq!(es[0].style, Style::Constructed);
    assert_eq!(es[0].universal_type(), Some(UniversalType::Sequence));
    let kids = children_of(&es[0]);
    assert_eq!(kids.len(), 2);
    assert_eq!(value_of(&kids[0]), &Value::Integer(5));
    assert_eq!(value_of(&kids[1]), &Value::Integer(7));
}

#[test]
fn overlong_final_element_is_truncated() {
    let bytes = [0x02, 0x02, 0x00, 0x01, 0x02, 0x05, 0x00];
    assert_eq!(decode_err(&bytes), DecodeError::TruncatedInput);
    assert_eq!(decode_err(&[0x30, 0x05, 0x02, 0x01]), DecodeError::TruncatedInput);
}

#[test]
fn context_tag_wraps_integer() {
    let inner = [0x02, 0x02, 0x00, 0x2A];
    let wrapped = [0xA1, 0x04, 0x02, 0x02, 0x00, 0x2A];
    let es = decode(&wrapped).unwrap();
    assert_eq!(es.len(), 1);
    assert_eq!(es[0].class, Class::ContextSpecific);
    assert_eq!(es[0].tag, 1);
    let direct = decode(&inner).unwrap();
    let kids = children_of(&es[0]);
    assert_eq!(kids.len(), 1);
    assert_eq!(value_of(&kids[0]), value_of(&direct[0]));
    assert_eq!(value_of(&kids[0]), &Value::Integer(42));
}

#[test]
fn context_tag_zero_is_absent() {
    let es = decode(&[0x80, 0x00]).unwrap();
    assert_eq!(value_of(&es[0]), &Value::Absent);
    assert_eq!(es[0].universal_type(), None);
    let es = decode(&[0xA0, 0x04, 0x02, 0x02, 0x00, 0x2A]).unwrap();
    assert_eq!(es.len(), 1);
    assert_eq!(value_of(&es[0]), &Value::Absent);
    assert_eq!(es[0].payload, vec![0x02, 0x02, 0x00, 0x2A]);
}

#[test]
fn non_utf8_text_is_invalid() {
    assert_eq!(decode_err(&[0x0C, 0x02, 0xFF, 0xFE]), DecodeError::InvalidEncoding);
    assert_eq!(decode_err(&[0x13, 0x01, 0x80]), DecodeError::InvalidEncoding);
    assert_eq!(decode_text(&[0xC3, 0x28]), Err(DecodeError::InvalidEncoding));
}

#[test]
fn text_and_time_values() {
    let es = decode(&[0x0C, 0x03, 0x68, 0xC3, 0xA9]).unwrap();
    assert_eq!(value_of(&es[0]), &Value::Utf8String("h\u{e9}".to_string()));
    let es = decode(&[0x13, 0x02, 0x55, 0x53]).unwrap();
    assert_eq!(value_of(&es[0]), &Value::PrintableString("US".to_string()));
    let t = b"250101000000Z";
    let mut bytes = vec![0x17, t.len() as u8];
    bytes.extend_from_slice(t);
    let es = decode(&bytes).unwrap();
    assert_eq!(value_of(&es[0]), &Value::UtcTime("250101000000Z".to_string()));
    let g = b"20250101000000Z";
    let mut bytes = vec![0x18, g.len() as u8];
    bytes.extend_from_slice(g);
    let es = decode(&bytes).unwrap();
    assert_eq!(value_of(&es[0]), &Value::GeneralizedTime("20250101000000Z".to_string()));
    assert_eq!(decode_text(&[0x61, 0x62]), Ok("ab".to_string()));
}

#[test]
fn byte_strings_are_verbatim() {
    let es = decode(&[0x04, 0x03, 0x01, 0x02, 0x03, 0x03, 0x02, 0x00, 0xF0]).unwrap();
    assert_eq!(value_of(&es[0]), &Value::OctetString(vec![1, 2, 3]));
    assert_eq!(value_of(&es[1]), &Value::BitString(vec![0x00, 0xF0]));
    assert_eq!(decode_bytes(&[9, 8]), vec![9, 8]);
}

#[test]
fn unsupported_types() {
    assert_eq!(decode_err(&[0x01, 0x01, 0xFF]), DecodeError::UnsupportedType);
    assert_eq!(decode_err(&[0x05, 0x00]), DecodeError::UnsupportedType);
    assert_eq!(decode_err(&[0x41, 0x00]), DecodeError::UnsupportedType);
    assert_eq!(decode_err(&[0xC1, 0x00]), DecodeError::UnsupportedType);
    assert_eq!(decode_err(&[0x00, 0x00]), DecodeError::UnsupportedType);
}

#[test]
fn unsupported_encodings_in_decode() {
    assert_eq!(decode_err(&[0x30, 0x80, 0x00, 0x00]), DecodeError::UnsupportedEncoding);
    assert_eq!(decode_err(&[0x3F, 0x01, 0x00]), DecodeError::UnsupportedEncoding);
    assert_eq!(decode_err(&[0x02, 0x00, 0x30]), DecodeError::TruncatedInput);
}

#[test]
fn empty_input_decodes_to_nothing() {
    assert_eq!(decode(&[]).unwrap().len(), 0);
}

#[test]
fn error_in_nested_element_fails_whole_decode() {
    let bytes = [0x30, 0x06, 0x02, 0x02, 0x00, 0x01, 0x01, 0x00];
    assert_eq!(decode_err(&bytes), DecodeError::UnsupportedType);
}

#[test]
fn universal_type_table() {
    assert_eq!(UniversalType::from(0x10), UniversalType::Sequence);
    assert_eq!(UniversalType::from(0x11), UniversalType::SetOf);
    assert_eq!(UniversalType::from(0x0E), UniversalType::Reserved);
    assert_eq!(UniversalType::from(0x0F), UniversalType::Reserved);
    assert_eq!(UniversalType::from(0x1E), UniversalType::BmpString);
    assert_eq!(UniversalType::from(0x1F), UniversalType::Unknown);
    assert_eq!(UniversalType::from(0x00), UniversalType::EndOfContent);
}

#[test]
fn error_messages() {
    assert_eq!(DecodeError::TruncatedInput.message(), "truncated input");
    assert_eq!(DecodeError::InvalidEncoding.message(), "invalid encoding");
}
