//! Tests for the type/length unit and the typed field-value codec.

use netflow9::error::NetFlowError;
use netflow9::field::{classify, FieldCategory, FieldValue, FlowField, MacAddr, TypeLengthField,
    UInt};

const TYPE_LENGTH_FIELD: (usize, [u8; 8]) = (
    2,
    [0x00, 0x15, 0x00, 0x04, 0x00, 0x16, 0x00, 0x04],
);

#[test]
fn type_length_field_test_to_vec() {
    let (len, testdata) = TYPE_LENGTH_FIELD;
    let (_rest, fields) = TypeLengthField::parse_bytes(len, &testdata).unwrap();
    assert_eq!(fields.len(), len);
    assert_eq!(fields[0].type_id, 21);
    assert_eq!(fields[0].length, 4);
}

#[test]
fn type_length_field_test_to_bytes() {
    let (len, testdata) = TYPE_LENGTH_FIELD;
    let (_rest, fields) = TypeLengthField::parse_bytes(len, &testdata).unwrap();
    let bytes = fields[0].to_bytes();
    assert_eq!(bytes, [0x00, 0x15, 0x00, 0x04]);
}

#[test]
fn type_length_field_rejects_short_input() {
    assert!(matches!(
        TypeLengthField::parse_bytes(2, &[0x00, 0x15, 0x00]),
        Err(NetFlowError::UnexpectedIncomplete)
    ));
}

#[test]
fn classify_is_total() {
    assert_eq!(classify(1), FieldCategory::Numeric);
    assert_eq!(classify(104), FieldCategory::Numeric);
    assert_eq!(classify(90), FieldCategory::OpaqueBytes);
    assert_eq!(classify(8), FieldCategory::Ipv4);
    assert_eq!(classify(45), FieldCategory::Ipv4);
    assert_eq!(classify(27), FieldCategory::Ipv6);
    assert_eq!(classify(63), FieldCategory::Ipv6);
    assert_eq!(classify(56), FieldCategory::Mac);
    assert_eq!(classify(81), FieldCategory::Mac);
    assert_eq!(classify(82), FieldCategory::Text);
    assert_eq!(classify(95), FieldCategory::Flags);
    // identifiers outside every classification set fall back to opaque bytes
    assert_eq!(classify(0), FieldCategory::OpaqueBytes);
    assert_eq!(classify(105), FieldCategory::OpaqueBytes);
    assert_eq!(classify(u16::MAX), FieldCategory::OpaqueBytes);
}

#[test]
fn three_byte_number_re_encodes_at_three_bytes() {
    // type 31 (a flow label) is numeric with a 3-byte width
    let value = FieldValue::new(31, &[0x01, 0x02, 0x03]).unwrap();
    assert!(matches!(value, FieldValue::NumField(UInt::UInt32(0x00010203))));
    assert_eq!(value.to_bytes(3), vec![0x01, 0x02, 0x03]);
}

#[test]
fn numeric_widths_pick_their_class() {
    assert!(matches!(FieldValue::new(4, &[7]).unwrap(), FieldValue::NumField(UInt::UInt8(7))));
    assert!(matches!(
        FieldValue::new(7, &[0x01, 0x02]).unwrap(),
        FieldValue::NumField(UInt::UInt16(0x0102))
    ));
    assert!(matches!(
        FieldValue::new(1, &[1, 2, 3, 4, 5]).unwrap(),
        FieldValue::NumField(UInt::UInt64(0x0102030405))
    ));
    assert!(matches!(
        FieldValue::new(1, &[1, 2, 3, 4, 5, 6, 7, 8, 9]).unwrap(),
        FieldValue::NumField(UInt::UInt128(0x010203040506070809))
    ));
}

#[test]
fn string_field_rejects_invalid_utf8() {
    assert!(matches!(
        FieldValue::new(82, &[0xff, 0xfe]),
        Err(NetFlowError::InvalidFieldValue)
    ));
}

#[test]
fn string_field_round_trips() {
    let value = FieldValue::new(82, b"eth0").unwrap();
    assert!(matches!(&value, FieldValue::String(s) if s.as_str() == "eth0"));
    assert_eq!(value.to_bytes(4), b"eth0".to_vec());
}

#[test]
fn address_fields_demand_their_width() {
    assert!(matches!(FieldValue::new(8, &[1, 2, 3]), Err(NetFlowError::InvalidLength)));
    assert!(matches!(FieldValue::new(27, &[0u8; 15]), Err(NetFlowError::InvalidLength)));
    assert!(matches!(FieldValue::new(56, &[0u8; 5]), Err(NetFlowError::InvalidLength)));
}

#[test]
fn mac_addr_octets_keep_wire_order() {
    let mac = MacAddr::new(1, 2, 3, 4, 5, 6);
    assert_eq!(mac.octets(), [1, 2, 3, 4, 5, 6]);
}

#[test]
fn flow_field_round_trips() {
    let payload = [192, 168, 0, 1, 9, 9];
    let (rest, field) = FlowField::from_bytes(8, 4, &payload).unwrap();
    assert_eq!(rest.len(), 2);
    assert_eq!(field.byte_length(), 4);
    assert_eq!(field.to_bytes(), vec![192, 168, 0, 1]);
}
