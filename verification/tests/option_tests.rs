//! Tests for the option-template flowset and its template items.

use netflow9::flowset::{OptionTemplate, OptionTemplateItem, TemplateParser};

const OPTION_DATA: [u8; 26] = [
    0x00, 0x01, 0x00, 0x1a, 0x10, 0x00, 0x00, 0x04, 0x00, 0x0c, 0x00, 0x01,
    0x00, 0x04, 0x00, 0x30, 0x00, 0x01, 0x00, 0x31, 0x00, 0x01, 0x00, 0x32,
    0x00, 0x04,
];

const OPTION_DATA_PADDED: [u8; 28] = [
    0x00, 0x01, 0x00, 0x1c, 0x10, 0x00, 0x00, 0x04, 0x00, 0x0c, 0x00, 0x01,
    0x00, 0x04, 0x00, 0x30, 0x00, 0x01, 0x00, 0x31, 0x00, 0x01, 0x00, 0x32,
    0x00, 0x04, 0x00, 0x00,
];

const OPTION_TEMPLATE_ITEM: [u8; 22] = [
    0x10, 0x00, 0x00, 0x04, 0x00, 0x0c, 0x00, 0x01, 0x00, 0x04, 0x00, 0x30,
    0x00, 0x01, 0x00, 0x31, 0x00, 0x01, 0x00, 0x32, 0x00, 0x04,
];

const OPTION_TEMPLATE_ITEM_DATAFLOW: [u8; 10] = [
    0x00, 0x00, 0x00, 0x00, 0x01, 0x02, 0x00, 0x00, 0x00, 0x01,
];

#[test]
fn option_template_test_option_template() {
    let packet_bytes = OPTION_DATA;
    let option = OptionTemplate::from_bytes(&packet_bytes);
    assert!(option.is_ok());

    let (_rest, mut option) = option.unwrap();
    assert_eq!(option.flowset_id, 1);
    assert_eq!(option.length, 26);
    assert_eq!(option.templates.template_id, 4096);
    assert_eq!(option.templates.scope_count, 1);
    assert_eq!(option.templates.option_count, 3);
    assert!(!option.is_padding());
    option.set_padding(true);
    assert!(option.is_padding());
}

#[test]
fn option_template_test_to_bytes() {
    let packet_bytes = OPTION_DATA;
    let padding_bytes = OPTION_DATA_PADDED;
    let (_rest, mut option) = OptionTemplate::from_bytes(&packet_bytes).unwrap();

    option.set_padding(false);
    let bytes = option.to_bytes();
    assert_eq!(&bytes.as_slice(), &packet_bytes);

    // with the padding flag set, two zero bytes align the flowset
    option.set_padding(true);
    let bytes = option.to_bytes();
    assert_eq!(bytes.len() % 4, 0);
    assert_eq!(&bytes.as_slice(), &padding_bytes);
}

#[test]
fn option_template_test_convert() {
    let packet_bytes = OPTION_DATA;
    let (_rest, option) = OptionTemplate::from_bytes(&packet_bytes).unwrap();
    let bytes = option.to_bytes();

    let (_rest, option) = OptionTemplate::from_bytes(&bytes).unwrap();
    let re_bytes = option.to_bytes();

    assert_eq!(re_bytes, bytes);
}

#[test]
fn option_template_test_byte_length() {
    let packet_bytes = OPTION_DATA;
    let (_rest, mut option) = OptionTemplate::from_bytes(&packet_bytes).unwrap();

    assert_eq!(option.byte_length(), packet_bytes.len());

    option.set_padding(true);
    assert_eq!(option.byte_length(), packet_bytes.len() + 2);
    assert_eq!(option.byte_length() % 4, 0);
}

#[test]
fn padded_option_template_round_trips() {
    let (rest, option) = OptionTemplate::from_bytes(&OPTION_DATA_PADDED).unwrap();
    assert_eq!(rest.len(), 0);
    assert_eq!(option.length, 28);
    assert!(option.is_padding());
    assert_eq!(option.to_bytes(), OPTION_DATA_PADDED.to_vec());
}

#[test]
fn option_template_item_test_parse() {
    let (len, data) = (22u16, OPTION_TEMPLATE_ITEM);
    let (rest, temp) = OptionTemplateItem::from_bytes(len, &data).unwrap();

    assert_eq!(rest.len(), 0);
    assert_eq!(temp.scopes.len() + temp.options.len(), 4);
}

#[test]
fn option_template_item_test_get_len() {
    let (len, data) = (22u16, OPTION_TEMPLATE_ITEM);
    let (_rest, temp) = OptionTemplateItem::from_bytes(len, &data).unwrap();

    assert_eq!(temp.get_template_len(), 10);
    assert_eq!(temp.get_fields_len(), 16);
}

#[test]
fn option_template_item_test_to_vec() {
    let (len, data) = (22u16, OPTION_TEMPLATE_ITEM);
    let (rest, temp) = OptionTemplateItem::to_vec(len, &data).unwrap();

    assert_eq!(rest.len(), 0);
    assert_eq!(temp.len(), 1);
    assert_eq!(temp[0].scopes.len() + temp[0].options.len(), 4);
}

#[test]
fn option_template_item_test_get_id() {
    let (len, data) = (22u16, OPTION_TEMPLATE_ITEM);
    let (_rest, temp) = OptionTemplateItem::from_bytes(len, &data).unwrap();

    assert_eq!(temp.get_id(), 4096);
}

#[test]
fn option_template_item_test_parse_dataflow() {
    let (len, data) = (22u16, OPTION_TEMPLATE_ITEM);
    let dataflow = OPTION_TEMPLATE_ITEM_DATAFLOW;
    let (_rest, temp) = OptionTemplateItem::from_bytes(len, &data).unwrap();

    let record = temp.parse_dataflow(&dataflow);
    assert!(record.is_ok());
}

#[test]
fn option_template_item_test_to_bytes() {
    let (len, data) = (22u16, OPTION_TEMPLATE_ITEM);
    let (_rest, temp) = OptionTemplateItem::from_bytes(len, &data).unwrap();
    let bytes = temp.to_bytes();

    assert_eq!(&bytes.as_slice(), &data);
}

#[test]
fn option_template_item_test_byte_length() {
    let (len, data) = (22u16, OPTION_TEMPLATE_ITEM);
    let (_rest, temp) = OptionTemplateItem::from_bytes(len, &data).unwrap();

    assert_eq!(temp.byte_length(), data.len());
}

#[test]
fn constructed_option_template_length_matches_wire() {
    let (_, decoded) = OptionTemplate::from_bytes(&OPTION_DATA).unwrap();
    let built = OptionTemplate::new(decoded.templates);
    // padding is enabled, so the stored length counts the two zero bytes
    assert!(built.is_padding());
    assert_eq!(built.length, 28);
    let bytes = built.to_bytes();
    assert_eq!(built.length as usize, bytes.len());
    assert_eq!(bytes, OPTION_DATA_PADDED.to_vec());
}
