//! Tests for the data flowset: template-less decoding, template-driven
//! record decoding, and padding behaviour.

use netflow9::error::NetFlowError;
use netflow9::flowset::{DataFlow, DataTemplate, DataTemplateItem};

const DATAFLOW_DATA: [u8; 64] = [
    0x04, 0x00, 0x00, 0x40, 0x00, 0x52, 0x1b, 0x3d, 0x00, 0x52, 0x1b, 0x3d,
    0x00, 0x00, 0x00, 0x28, 0x00, 0x00, 0x00, 0x01, 0x04, 0x00, 0x03, 0x00,
    0x00, 0x00, 0x00, 0x00, 0x00, 0x00, 0xc0, 0xa8, 0x06, 0x65, 0xc0, 0xa8,
    0x06, 0x66, 0x3e, 0x81, 0xc1, 0xaa, 0x00, 0x14, 0x06, 0x08, 0x00, 0x27,
    0x3a, 0xdd, 0x56, 0x90, 0x1b, 0x0e, 0x95, 0x74, 0x93, 0x00, 0x00, 0x00,
    0x00, 0x00, 0x03, 0x01,
];

const TEMPLATE_DATA: [u8; 92] = [
    0x00, 0x00, 0x00, 0x5c, 0x04, 0x00, 0x00, 0x15, 0x00, 0x15, 0x00, 0x04,
    0x00, 0x16, 0x00, 0x04, 0x00, 0x01, 0x00, 0x04, 0x00, 0x02, 0x00, 0x04,
    0x00, 0x3c, 0x00, 0x01, 0x00, 0x0a, 0x00, 0x02, 0x00, 0x0e, 0x00, 0x02,
    0x00, 0x3d, 0x00, 0x01, 0x00, 0x03, 0x00, 0x04, 0x00, 0x08, 0x00, 0x04,
    0x00, 0x0c, 0x00, 0x04, 0x00, 0x07, 0x00, 0x02, 0x00, 0x0b, 0x00, 0x02,
    0x00, 0x05, 0x00, 0x01, 0x00, 0x06, 0x00, 0x01, 0x00, 0x04, 0x00, 0x01,
    0x00, 0x38, 0x00, 0x06, 0x00, 0x50, 0x00, 0x06, 0x00, 0x3a, 0x00, 0x02,
    0x00, 0xc9, 0x00, 0x04, 0x00, 0x30, 0x00, 0x01,
];

const TEMPLATE_AND_DATA_1: [u8; 484] = [
    0x04, 0x00, 0x01, 0xe4, 0x00, 0x52, 0x1b, 0x3d, 0x00, 0x52, 0x1b, 0x3d,
    0x00, 0x00, 0x00, 0x28, 0x00, 0x00, 0x00, 0x01, 0x04, 0x00, 0x03, 0x00,
    0x00, 0x00, 0x00, 0x00, 0x00, 0x00, 0xc0, 0xa8, 0x06, 0x65, 0xc0, 0xa8,
    0x06, 0x66, 0x4d, 0x82, 0x84, 0x60, 0x00, 0x14, 0x06, 0x08, 0x00, 0x27,
    0x3a, 0xdd, 0x56, 0x90, 0x1b, 0x0e, 0x95, 0x74, 0x93, 0x00, 0x00, 0x00,
    0x00, 0x00, 0x03, 0x01, 0x00, 0x52, 0x1b, 0x3d, 0x00, 0x52, 0x1b, 0x3d,
    0x00, 0x00, 0x00, 0x28, 0x00, 0x00, 0x00, 0x01, 0x04, 0x00, 0x03, 0x00,
    0x00, 0x00, 0x00, 0x00, 0x00, 0x00, 0xc0, 0xa8, 0x06, 0x65, 0xc0, 0xa8,
    0x06, 0x66, 0x09, 0xdd, 0xca, 0x38, 0x00, 0x14, 0x06, 0x08, 0x00, 0x27,
    0x3a, 0xdd, 0x56, 0x90, 0x1b, 0x0e, 0x95, 0x74, 0x93, 0x00, 0x00, 0x00,
    0x00, 0x00, 0x03, 0x01, 0x00, 0x52, 0x1b, 0x3d, 0x00, 0x52, 0x1b, 0x3d,
    0x00, 0x00, 0x00, 0x28, 0x00, 0x00, 0x00, 0x01, 0x04, 0x00, 0x03, 0x00,
    0x00, 0x00, 0x00, 0x00, 0x00, 0x00, 0xc0, 0xa8, 0x06, 0x65, 0xc0, 0xa8,
    0x06, 0x66, 0x04, 0x5f, 0x80, 0x8a, 0x00, 0x14, 0x06, 0x08, 0x00, 0x27,
    0x3a, 0xdd, 0x56, 0x90, 0x1b, 0x0e, 0x95, 0x74, 0x93, 0x00, 0x00, 0x00,
    0x00, 0x00, 0x03, 0x01, 0x00, 0x52, 0x1b, 0x3d, 0x00, 0x52, 0x1b, 0x3d,
    0x00, 0x00, 0x00, 0x28, 0x00, 0x00, 0x00, 0x01, 0x04, 0x00, 0x03, 0x00,
    0x00, 0x00, 0x00, 0x00, 0x00, 0x00, 0xc0, 0xa8, 0x06, 0x65, 0xc0, 0xa8,
    0x06, 0x66, 0x3e, 0xf1, 0x9f, 0x1c, 0x00, 0x14, 0x06, 0x08, 0x00, 0x27,
    0x3a, 0xdd, 0x56, 0x90, 0x1b, 0x0e, 0x95, 0x74, 0x93, 0x00, 0x00, 0x00,
    0x00, 0x00, 0x03, 0x01, 0x00, 0x52, 0x1b, 0x3e, 0x00, 0x52, 0x1b, 0x3e,
    0x00, 0x00, 0x00, 0x28, 0x00, 0x00, 0x00, 0x01, 0x04, 0x00, 0x03, 0x00,
    0x00, 0x00, 0x00, 0x00, 0x00, 0x00, 0xc0, 0xa8, 0x06, 0x65, 0xc0, 0xa8,
    0x06, 0x66, 0x20, 0xfb, 0xe7, 0xe2, 0x00, 0x14, 0x06, 0x08, 0x00, 0x27,
    0x3a, 0xdd, 0x56, 0x90, 0x1b, 0x0e, 0x95, 0x74, 0x93, 0x00, 0x00, 0x00,
    0x00, 0x00, 0x03, 0x01, 0x00, 0x52, 0x1b, 0x3e, 0x00, 0x52, 0x1b, 0x3e,
    0x00, 0x00, 0x00, 0x28, 0x00, 0x00, 0x00, 0x01, 0x04, 0x00, 0x03, 0x00,
    0x00, 0x00, 0x00, 0x00, 0x00, 0x00, 0xc0, 0xa8, 0x06, 0x65, 0xc0, 0xa8,
    0x06, 0x66, 0x0a, 0x96, 0xb8, 0xa6, 0x00, 0x14, 0x06, 0x08, 0x00, 0x27,
    0x3a, 0xdd, 0x56, 0x90, 0x1b, 0x0e, 0x95, 0x74, 0x93, 0x00, 0x00, 0x00,
    0x00, 0x00, 0x03, 0x01, 0x00, 0x52, 0x1b, 0x3e, 0x00, 0x52, 0x1b, 0x3e,
    0x00, 0x00, 0x00, 0x28, 0x00, 0x00, 0x00, 0x01, 0x04, 0x00, 0x03, 0x00,
    0x00, 0x00, 0x00, 0x00, 0x00, 0x00, 0xc0, 0xa8, 0x06, 0x65, 0xc0, 0xa8,
    0x06, 0x66, 0x27, 0xe7, 0x90, 0xb2, 0x00, 0x14, 0x06, 0x08, 0x00, 0x27,
    0x3a, 0xdd, 0x56, 0x90, 0x1b, 0x0e, 0x95, 0x74, 0x93, 0x00, 0x00, 0x00,
    0x00, 0x00, 0x03, 0x01, 0x00, 0x52, 0x1b, 0x3e, 0x00, 0x52, 0x1b, 0x3e,
    0x00, 0x00, 0x00, 0x28, 0x00, 0x00, 0x00, 0x01, 0x04, 0x00, 0x03, 0x00,
    0x00, 0x00, 0x00, 0x00, 0x00, 0x00, 0xc0, 0xa8, 0x06, 0x65, 0xc0, 0xa8,
    0x06, 0x66, 0x09, 0xbc, 0x97, 0x80, 0x00, 0x14, 0x06, 0x08, 0x00, 0x27,
    0x3a, 0xdd, 0x56, 0x90, 0x1b, 0x0e, 0x95, 0x74, 0x93, 0x00, 0x00, 0x00,
    0x00, 0x00, 0x03, 0x01,
];

const PAD_TEMPLATE: [u8; 88] = [
    0x00, 0x00, 0x00, 0x58, 0x04, 0x00, 0x00, 0x14, 0x00, 0x15, 0x00, 0x04,
    0x00, 0x16, 0x00, 0x04, 0x00, 0x01, 0x00, 0x04, 0x00, 0x02, 0x00, 0x04,
    0x00, 0x3c, 0x00, 0x01, 0x00, 0x0a, 0x00, 0x02, 0x00, 0x0e, 0x00, 0x02,
    0x00, 0x3d, 0x00, 0x01, 0x00, 0x03, 0x00, 0x04, 0x00, 0x08, 0x00, 0x04,
    0x00, 0x0c, 0x00, 0x04, 0x00, 0x07, 0x00, 0x02, 0x00, 0x0b, 0x00, 0x02,
    0x00, 0x05, 0x00, 0x01, 0x00, 0x06, 0x00, 0x01, 0x00, 0x04, 0x00, 0x01,
    0x00, 0x38, 0x00, 0x06, 0x00, 0x50, 0x00, 0x06, 0x00, 0x3a, 0x00, 0x02,
    0x00, 0xc9, 0x00, 0x04,
];

const PAD_NOPAD: [u8; 63] = [
    0x04, 0x00, 0x00, 0x3f, 0x00, 0x52, 0x1b, 0x69, 0x00, 0x52, 0x1b, 0x69,
    0x00, 0x00, 0x00, 0x28, 0x00, 0x00, 0x00, 0x01, 0x04, 0x00, 0x03, 0x00,
    0x00, 0x00, 0x00, 0x00, 0x00, 0x00, 0xc0, 0xa8, 0x06, 0x65, 0xc0, 0xa8,
    0x06, 0x66, 0x27, 0x12, 0x9d, 0xb8, 0x00, 0x14, 0x06, 0x08, 0x00, 0x27,
    0x3a, 0xdd, 0x56, 0x90, 0x1b, 0x0e, 0x95, 0x74, 0x93, 0x00, 0x00, 0x00,
    0x00, 0x00, 0x03,
];

const PAD_PADDED: [u8; 64] = [
    0x04, 0x00, 0x00, 0x40, 0x00, 0x52, 0x1b, 0x69, 0x00, 0x52, 0x1b, 0x69,
    0x00, 0x00, 0x00, 0x28, 0x00, 0x00, 0x00, 0x01, 0x04, 0x00, 0x03, 0x00,
    0x00, 0x00, 0x00, 0x00, 0x00, 0x00, 0xc0, 0xa8, 0x06, 0x65, 0xc0, 0xa8,
    0x06, 0x66, 0x27, 0x12, 0x9d, 0xb8, 0x00, 0x14, 0x06, 0x08, 0x00, 0x27,
    0x3a, 0xdd, 0x56, 0x90, 0x1b, 0x0e, 0x95, 0x74, 0x93, 0x00, 0x00, 0x00,
    0x00, 0x00, 0x03, 0x00,
];

#[test]
fn from_bytes_notemplate() {
    let packet_bytes = DATAFLOW_DATA;
    let res = DataFlow::from_bytes_notemplate(&packet_bytes);

    assert!(res.is_ok());
}

#[test]
fn dataflow_without_template_keeps_raw_bytes() {
    let (rest, flow) = DataFlow::from_bytes_notemplate(&DATAFLOW_DATA).unwrap();
    assert_eq!(rest.len(), 0);
    assert!(flow.records.is_none());
    assert_eq!(flow.record_bytes.len(), 60);
    assert_eq!(flow.flowset_id, 1024);
    assert_eq!(flow.length, 64);
}

#[test]
fn from_bytes() {
    let (test_template, testdata) = (TEMPLATE_DATA, TEMPLATE_AND_DATA_1);
    let template = DataTemplate::from_bytes(&test_template);
    assert!(template.is_ok());
    let template: DataTemplate = template.unwrap().1;

    let dataflow = DataFlow::from_bytes(&testdata, &template.templates);
    assert!(dataflow.is_ok());
    let dataflow: DataFlow = dataflow.unwrap().1;

    assert!(dataflow.records.is_some());
    assert_eq!(dataflow.flowset_id, 1024);
    assert_eq!(dataflow.length, 484);

    let records = dataflow.records.unwrap();
    assert_eq!(records.len(), 8);
}

#[test]
fn to_bytes() {
    let (test_template, testdata) = (TEMPLATE_DATA, TEMPLATE_AND_DATA_1);
    let template = DataTemplate::from_bytes(&test_template).unwrap().1;
    let mut dataflow = DataFlow::from_bytes(&testdata, &template.templates)
        .unwrap()
        .1;

    let bytes = dataflow.to_bytes();
    assert_eq!(bytes.len() % 4, 0);
    assert_eq!(&bytes.as_slice(), &testdata.as_ref());

    dataflow.set_padding(false);
    let bytes = dataflow.to_bytes();
    assert_eq!(&bytes.as_slice(), &testdata.as_ref());
}

#[test]
fn to_bytes_no_padding() {
    let (test_template, (no_padding_data, padding_data)) = (PAD_TEMPLATE, (PAD_NOPAD, PAD_PADDED));
    let template = DataTemplate::from_bytes(&test_template).unwrap().1;

    let mut dataflow = DataFlow::from_bytes(&no_padding_data, &template.templates)
        .unwrap()
        .1;

    assert!(!dataflow.is_padding(), "is_padding is true");
    let bytes = dataflow.to_bytes();
    assert_eq!(
        &bytes.as_slice(),
        &no_padding_data.as_ref(),
        "Wrong when no padding"
    );

    dataflow.set_padding(true);

    let bytes = dataflow.to_bytes();
    let mut padding = Vec::new();
    padding.extend_from_slice(&padding_data[..]);

    assert_eq!(bytes.len() % 4, 0, "Not aligned");
    assert_eq!(&bytes, &padding, "Wrong when padding, is_padding true");
}

#[test]
fn to_bytes_padding() {
    let (test_template, (no_padding_data, padding_data)) = (PAD_TEMPLATE, (PAD_NOPAD, PAD_PADDED));
    let template = DataTemplate::from_bytes(&test_template).unwrap().1;

    let mut dataflow = DataFlow::from_bytes(&padding_data, &template.templates)
        .unwrap()
        .1;
    assert!(dataflow.is_padding(), "is_padding is false");

    let bytes = dataflow.to_bytes();
    assert_eq!(bytes.len() % 4, 0, "Not aligned");
    assert_eq!(
        &bytes.as_slice(),
        &padding_data.as_ref(),
        "Wrong when padding, is_padding true"
    );

    dataflow.set_padding(false);

    let bytes = dataflow.to_bytes();
    let mut no_padding: Vec<u8> = Vec::new();
    no_padding.extend(&no_padding_data[..]);
    assert_eq!(&bytes, &no_padding, "Wrong when padding, is_padding false");
}

#[test]
fn convert_from_to() {
    let (test_template, testdata) = (TEMPLATE_DATA, TEMPLATE_AND_DATA_1);
    let template = DataTemplate::from_bytes(&test_template).unwrap().1;
    let dataflow = DataFlow::from_bytes(&testdata, &template.templates)
        .unwrap()
        .1;
    let bytes = dataflow.to_bytes();

    let dataflow = DataFlow::from_bytes(&bytes, &template.templates).unwrap().1;
    let re_bytes = dataflow.to_bytes();

    assert_eq!(re_bytes, bytes);
}

#[test]
fn byte_length() {
    let (test_template, testdata) = (TEMPLATE_DATA, TEMPLATE_AND_DATA_1);
    let template = DataTemplate::from_bytes(&test_template).unwrap().1;
    let mut dataflow = DataFlow::from_bytes(&testdata, &template.templates)
        .unwrap()
        .1;

    assert_eq!(dataflow.byte_length(), testdata.len());

    dataflow.set_padding(false);
    assert_eq!(dataflow.byte_length(), testdata.len());
}

#[test]
fn get_padding_size() {
    let template_len = 12;
    let length = 39 + 4;
    let pad_len = DataFlow::get_padding_size(length, template_len);

    assert_eq!(pad_len, 3);
}

#[test]
fn test_remove_padding() {
    let payload = [0; 39];
    let template_len = 12;
    let length = 39 + 4;

    let payload = DataFlow::remove_padding(length, template_len, &payload);

    assert_eq!(payload.len(), 36);
}

#[test]
fn missing_template_is_reported() {
    let templates: Vec<DataTemplateItem> = Vec::new();
    assert!(matches!(
        DataFlow::from_bytes(&DATAFLOW_DATA, &templates),
        Err(NetFlowError::TemplateNotFound)
    ));
}

#[test]
fn constructed_data_flow_length_matches_wire() {
    let template = DataTemplate::from_bytes(&TEMPLATE_DATA).unwrap().1;
    let decoded = DataFlow::from_bytes(&TEMPLATE_AND_DATA_1, &template.templates)
        .unwrap()
        .1;
    let built = DataFlow::new(1024, decoded.records.unwrap());
    assert_eq!(built.length, 484);
    let bytes = built.to_bytes();
    assert_eq!(built.length as usize, bytes.len());
    assert_eq!(bytes, TEMPLATE_AND_DATA_1.to_vec());
}

#[test]
fn constructed_unaligned_data_flow_counts_its_padding() {
    let template = DataTemplate::from_bytes(&PAD_TEMPLATE).unwrap().1;
    let decoded = DataFlow::from_bytes(&PAD_NOPAD, &template.templates).unwrap().1;
    // one 59-byte record: the enabled padding flag adds one zero byte
    let built = DataFlow::new(1024, decoded.records.unwrap());
    assert_eq!(built.length, 64);
    let bytes = built.to_bytes();
    assert_eq!(built.length as usize, bytes.len());
    assert_eq!(bytes, PAD_PADDED.to_vec());
}
