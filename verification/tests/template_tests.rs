//! Tests for the data-template flowset and its template items.

use netflow9::flowset::{DataTemplate, DataTemplateItem, TemplateParser};

const TEMPLATE_DATA: [u8; 92] = [
    0x00, 0x00, 0x00, 0x5c, 0x04, 0x00, 0x00, 0x15, 0x00, 0x15, 0x00, 0x04,
    0x00, 0x16, 0x00, 0x04, 0x00, 0x01, 0x00, 0x04, 0x00, 0x02, 0x00, 0x04,
    0x00, 0x3c, 0x00, 0x01, 0x00, 0x0a, 0x00, 0x02, 0x00, 0x0e, 0x00, 0x02,
    0x00, 0x3d, 0x00, 0x01, 0x00, 0x03, 0x00, 0x04, 0x00, 0x08, 0x00, 0x04,
    0x00, 0x0c, 0x00, 0x04, 0x00, 0x07, 0x00, 0x02, 0x00, 0x0b, 0x00, 0x02,
    0x00, 0x05, 0x00, 0x01, 0x00, 0x06, 0x00, 0x01, 0x00, 0x04, 0x00, 0x01,
    0x00, 0x38, 0x00, 0x06, 0x00, 0x50, 0x00, 0x06, 0x00, 0x3a, 0x00, 0x02,
    0x00, 0xc9, 0x00, 0x04, 0x00, 0x30, 0x00, 0x01,
];

const TEMPLATE_FIELDS: [u8; 88] = [
    0x04, 0x00, 0x00, 0x15, 0x00, 0x15, 0x00, 0x04, 0x00, 0x16, 0x00, 0x04,
    0x00, 0x01, 0x00, 0x04, 0x00, 0x02, 0x00, 0x04, 0x00, 0x3c, 0x00, 0x01,
    0x00, 0x0a, 0x00, 0x02, 0x00, 0x0e, 0x00, 0x02, 0x00, 0x3d, 0x00, 0x01,
    0x00, 0x03, 0x00, 0x04, 0x00, 0x08, 0x00, 0x04, 0x00, 0x0c, 0x00, 0x04,
    0x00, 0x07, 0x00, 0x02, 0x00, 0x0b, 0x00, 0x02, 0x00, 0x05, 0x00, 0x01,
    0x00, 0x06, 0x00, 0x01, 0x00, 0x04, 0x00, 0x01, 0x00, 0x38, 0x00, 0x06,
    0x00, 0x50, 0x00, 0x06, 0x00, 0x3a, 0x00, 0x02, 0x00, 0xc9, 0x00, 0x04,
    0x00, 0x30, 0x00, 0x01,
];

const DATA_TEMPLATE_ITEM_DATA: [u8; 60] = [
    0x00, 0x52, 0x1b, 0x3d, 0x00, 0x52, 0x1b, 0x3d, 0x00, 0x00, 0x00, 0x28,
    0x00, 0x00, 0x00, 0x01, 0x04, 0x00, 0x03, 0x00, 0x00, 0x00, 0x00, 0x00,
    0x00, 0x00, 0xc0, 0xa8, 0x06, 0x65, 0xc0, 0xa8, 0x06, 0x66, 0x3e, 0x81,
    0xc1, 0xaa, 0x00, 0x14, 0x06, 0x08, 0x00, 0x27, 0x3a, 0xdd, 0x56, 0x90,
    0x1b, 0x0e, 0x95, 0x74, 0x93, 0x00, 0x00, 0x00, 0x00, 0x00, 0x03, 0x01,
];

#[test]
fn data_template_test_data_template() {
    let data_template_payload = &TEMPLATE_DATA[..];

    let template = DataTemplate::from_bytes(&data_template_payload);
    assert!(template.is_ok());

    let (_rest, template) = template.unwrap();
    assert_eq!(template.flowset_id, 0);
    assert_eq!(template.length, 92);

    assert_eq!(template.templates.len(), 1);
    assert_eq!(template.templates[0].template_id, 1024);
    assert_eq!(template.templates[0].field_count, 21);
    assert_eq!(
        template.templates[0].fields.len() as u16,
        template.templates[0].field_count
    );
}

#[test]
fn data_template_test_to_bytes() {
    let test_data = &TEMPLATE_DATA[..];
    let (_, template) = DataTemplate::from_bytes(&test_data).unwrap();
    let bytes = template.to_bytes();

    assert_eq!(bytes.len() % 4, 0);
    assert_eq!(&bytes.as_slice(), &test_data);
}

#[test]
fn data_template_test_convert() {
    let test_data = &TEMPLATE_DATA[..];
    let (_, template) = DataTemplate::from_bytes(&test_data).unwrap();
    let bytes = template.to_bytes();

    let (_, template) = DataTemplate::from_bytes(&bytes).unwrap();
    let re_bytes = template.to_bytes();
    assert_eq!(re_bytes, bytes);
}

#[test]
fn data_template_test_byte_length() {
    let test_data = &TEMPLATE_DATA[..];
    let (_, template) = DataTemplate::from_bytes(&test_data).unwrap();

    assert_eq!(template.byte_length(), test_data.len());
}

#[test]
fn data_template_item_test_parse() {
    let (len, data) = (88u16, TEMPLATE_FIELDS);
    let (rest, temp) = DataTemplateItem::from_bytes(len, &data).unwrap();

    assert_eq!(rest.len(), 0);
    assert_eq!(temp.fields.len(), 21);
}

#[test]
fn data_template_item_test_get_template_len() {
    let (len, data) = (88u16, TEMPLATE_FIELDS);
    let (_rest, temp) = DataTemplateItem::from_bytes(len, &data).unwrap();

    assert_eq!(temp.template_id, 1024);
    assert_eq!(temp.get_template_len(), 60);
}

#[test]
fn data_template_item_test_to_vec() {
    let (len, data) = (88u16, TEMPLATE_FIELDS);
    let (rest, temp) = DataTemplateItem::to_vec(len, &data).unwrap();

    assert_eq!(rest.len(), 0);
    assert_eq!(temp[0].fields.len(), 21);
}

#[test]
fn test_parse_bytes() {
    let (len, data) = (88u16, TEMPLATE_FIELDS);
    let (rest, temp) = DataTemplateItem::parse_bytes(len, &data).unwrap();

    assert_eq!(rest.len(), 0);
    assert_eq!(temp[0].fields.len(), 21);
}

#[test]
fn data_template_item_test_parse_template() {
    let (len, data) = (88u16, TEMPLATE_FIELDS);
    let (_rest, temp) = DataTemplateItem::from_bytes(len, &data).unwrap();
    let dataflow = DATA_TEMPLATE_ITEM_DATA;

    let rec = temp.parse_dataflow(&dataflow);
    assert!(rec.is_ok());
}

#[test]
fn data_template_item_test_to_bytes() {
    let (len, data) = (88u16, TEMPLATE_FIELDS);
    let (_rest, temp) = DataTemplateItem::from_bytes(len, &data).unwrap();
    let bytes = temp.to_bytes();

    assert_eq!(&bytes.as_slice(), &data.as_ref());
}

#[test]
fn data_template_item_test_byte_length() {
    let (len, data) = (88u16, TEMPLATE_FIELDS);
    let (_rest, temp) = DataTemplateItem::from_bytes(len, &data).unwrap();

    assert_eq!(temp.byte_length(), data.len());
}

#[test]
fn data_template_item_rejects_uncovered_field_count() {
    // the budget of 4 bytes cannot cover the declared 21 slots
    let header = [0x04, 0x00, 0x00, 0x15];
    assert!(matches!(
        DataTemplateItem::from_bytes(4, &header),
        Err(netflow9::error::NetFlowError::InvalidLength)
    ));
}

#[test]
fn constructed_data_template_length_matches_wire() {
    let (_, decoded) = DataTemplate::from_bytes(&TEMPLATE_DATA).unwrap();
    let built = DataTemplate::new(decoded.templates);
    // the stored length is the wire length: header plus items
    assert_eq!(built.length, 92);
    let bytes = built.to_bytes();
    assert_eq!(built.length as usize, bytes.len());
    assert_eq!(bytes, TEMPLATE_DATA.to_vec());
}
