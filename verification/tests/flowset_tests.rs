//! Tests for the flowset dispatcher and the flowset sequence codec.

use netflow9::flowset::FlowSet;

const FLOWSET_DATA: [u8; 92] = [
    0x00, 0x00, 0x00, 0x5c, 0x04, 0x00, 0x00, 0x15, 0x00, 0x15, 0x00, 0x04,
    0x00, 0x16, 0x00, 0x04, 0x00, 0x01, 0x00, 0x04, 0x00, 0x02, 0x00, 0x04,
    0x00, 0x3c, 0x00, 0x01, 0x00, 0x0a, 0x00, 0x02, 0x00, 0x0e, 0x00, 0x02,
    0x00, 0x3d, 0x00, 0x01, 0x00, 0x03, 0x00, 0x04, 0x00, 0x08, 0x00, 0x04,
    0x00, 0x0c, 0x00, 0x04, 0x00, 0x07, 0x00, 0x02, 0x00, 0x0b, 0x00, 0x02,
    0x00, 0x05, 0x00, 0x01, 0x00, 0x06, 0x00, 0x01, 0x00, 0x04, 0x00, 0x01,
    0x00, 0x38, 0x00, 0x06, 0x00, 0x50, 0x00, 0x06, 0x00, 0x3a, 0x00, 0x02,
    0x00, 0xc9, 0x00, 0x04, 0x00, 0x30, 0x00, 0x01,
];

const MULTI_FLOWSET_DATA: [u8; 472] = [
    0x00, 0x00, 0x00, 0x5c, 0x04, 0x00, 0x00, 0x15, 0x00, 0x15, 0x00, 0x04,
    0x00, 0x16, 0x00, 0x04, 0x00, 0x01, 0x00, 0x04, 0x00, 0x02, 0x00, 0x04,
    0x00, 0x3c, 0x00, 0x01, 0x00, 0x0a, 0x00, 0x02, 0x00, 0x0e, 0x00, 0x02,
    0x00, 0x3d, 0x00, 0x01, 0x00, 0x03, 0x00, 0x04, 0x00, 0x08, 0x00, 0x04,
    0x00, 0x0c, 0x00, 0x04, 0x00, 0x07, 0x00, 0x02, 0x00, 0x0b, 0x00, 0x02,
    0x00, 0x05, 0x00, 0x01, 0x00, 0x06, 0x00, 0x01, 0x00, 0x04, 0x00, 0x01,
    0x00, 0x38, 0x00, 0x06, 0x00, 0x50, 0x00, 0x06, 0x00, 0x3a, 0x00, 0x02,
    0x00, 0xc9, 0x00, 0x04, 0x00, 0x30, 0x00, 0x01, 0x00, 0x00, 0x00, 0x5c,
    0x04, 0x01, 0x00, 0x15, 0x00, 0x15, 0x00, 0x04, 0x00, 0x16, 0x00, 0x04,
    0x00, 0x01, 0x00, 0x04, 0x00, 0x02, 0x00, 0x04, 0x00, 0x3c, 0x00, 0x01,
    0x00, 0x0a, 0x00, 0x02, 0x00, 0x0e, 0x00, 0x02, 0x00, 0x3d, 0x00, 0x01,
    0x00, 0x03, 0x00, 0x04, 0x00, 0x08, 0x00, 0x04, 0x00, 0x0c, 0x00, 0x04,
    0x00, 0x07, 0x00, 0x02, 0x00, 0x0b, 0x00, 0x02, 0x00, 0x05, 0x00, 0x01,
    0x00, 0x06, 0x00, 0x01, 0x00, 0x04, 0x00, 0x01, 0x00, 0x51, 0x00, 0x06,
    0x00, 0x39, 0x00, 0x06, 0x00, 0x3b, 0x00, 0x02, 0x00, 0xc9, 0x00, 0x04,
    0x00, 0x30, 0x00, 0x01, 0x00, 0x00, 0x00, 0x5c, 0x08, 0x00, 0x00, 0x15,
    0x00, 0x15, 0x00, 0x04, 0x00, 0x16, 0x00, 0x04, 0x00, 0x01, 0x00, 0x04,
    0x00, 0x02, 0x00, 0x04, 0x00, 0x3c, 0x00, 0x01, 0x00, 0x0a, 0x00, 0x02,
    0x00, 0x0e, 0x00, 0x02, 0x00, 0x3d, 0x00, 0x01, 0x00, 0x03, 0x00, 0x04,
    0x00, 0x1b, 0x00, 0x10, 0x00, 0x1c, 0x00, 0x10, 0x00, 0x05, 0x00, 0x01,
    0x00, 0x07, 0x00, 0x02, 0x00, 0x0b, 0x00, 0x02, 0x00, 0x06, 0x00, 0x01,
    0x00, 0x04, 0x00, 0x01, 0x00, 0x38, 0x00, 0x06, 0x00, 0x50, 0x00, 0x06,
    0x00, 0x3a, 0x00, 0x02, 0x00, 0xc9, 0x00, 0x04, 0x00, 0x30, 0x00, 0x01,
    0x00, 0x00, 0x00, 0x5c, 0x08, 0x01, 0x00, 0x15, 0x00, 0x15, 0x00, 0x04,
    0x00, 0x16, 0x00, 0x04, 0x00, 0x01, 0x00, 0x04, 0x00, 0x02, 0x00, 0x04,
    0x00, 0x3c, 0x00, 0x01, 0x00, 0x0a, 0x00, 0x02, 0x00, 0x0e, 0x00, 0x02,
    0x00, 0x3d, 0x00, 0x01, 0x00, 0x03, 0x00, 0x04, 0x00, 0x1b, 0x00, 0x10,
    0x00, 0x1c, 0x00, 0x10, 0x00, 0x05, 0x00, 0x01, 0x00, 0x07, 0x00, 0x02,
    0x00, 0x0b, 0x00, 0x02, 0x00, 0x06, 0x00, 0x01, 0x00, 0x04, 0x00, 0x01,
    0x00, 0x51, 0x00, 0x06, 0x00, 0x39, 0x00, 0x06, 0x00, 0x3b, 0x00, 0x02,
    0x00, 0xc9, 0x00, 0x04, 0x00, 0x30, 0x00, 0x01, 0x00, 0x01, 0x00, 0x1a,
    0x10, 0x00, 0x00, 0x04, 0x00, 0x0c, 0x00, 0x01, 0x00, 0x04, 0x00, 0x30,
    0x00, 0x01, 0x00, 0x31, 0x00, 0x01, 0x00, 0x32, 0x00, 0x04, 0x10, 0x00,
    0x00, 0x0e, 0x00, 0x00, 0x00, 0x00, 0x01, 0x02, 0x00, 0x00, 0x00, 0x01,
    0x04, 0x00, 0x00, 0x40, 0x00, 0x52, 0x1b, 0x3d, 0x00, 0x52, 0x1b, 0x3d,
    0x00, 0x00, 0x00, 0x28, 0x00, 0x00, 0x00, 0x01, 0x04, 0x00, 0x03, 0x00,
    0x00, 0x00, 0x00, 0x00, 0x00, 0x00, 0xc0, 0xa8, 0x06, 0x65, 0xc0, 0xa8,
    0x06, 0x66, 0x3e, 0x81, 0xc1, 0xaa, 0x00, 0x14, 0x06, 0x08, 0x00, 0x27,
    0x3a, 0xdd, 0x56, 0x90, 0x1b, 0x0e, 0x95, 0x74, 0x93, 0x00, 0x00, 0x00,
    0x00, 0x00, 0x03, 0x01,
];

#[test]
fn test_frombytes() {
    let test_data = FLOWSET_DATA;
    let set = FlowSet::from_bytes(&test_data);
    assert!(set.is_ok());
    let (_rest, set) = set.unwrap();

    assert!(matches!(set, FlowSet::DataTemplate(_)));
}

#[test]
fn mod_test_to_vec() {
    let test_data = MULTI_FLOWSET_DATA;
    let sets = FlowSet::parse_bytes(&test_data);
    assert!(sets.is_ok());
    let (rest, sets) = sets.unwrap();

    assert_eq!(rest.len(), 0);
    assert_eq!(sets.len(), 7);

    for i in 0..4 {
        assert!(matches!(sets[i], FlowSet::DataTemplate(_)), "failed at {}", i);
    }

    assert!(matches!(sets[4], FlowSet::OptionTemplate(_)), "Failed at 4");

    for i in 5..7 {
        assert!(matches!(sets[i], FlowSet::DataFlow(_)), "failed at {}", i);
    }
}

#[test]
fn mod_test_to_bytes() {
    let test_data = FLOWSET_DATA;
    let (_, set) = FlowSet::from_bytes(&test_data).unwrap();
    let bytes = set.to_bytes();

    assert_eq!(&bytes.as_slice(), &test_data.as_ref());
}

#[test]
fn mod_test_byte_length() {
    let test_data = FLOWSET_DATA;
    let (_, set) = FlowSet::from_bytes(&test_data).unwrap();

    assert_eq!(set.byte_length(), test_data.len());
}

#[test]
fn every_flowset_in_sequence_re_encodes() {
    let (_, sets) = FlowSet::parse_bytes(&MULTI_FLOWSET_DATA).unwrap();
    let mut bytes: Vec<u8> = Vec::new();
    for set in &sets {
        bytes.extend(set.to_bytes());
    }
    assert_eq!(bytes, MULTI_FLOWSET_DATA.to_vec());
}

#[test]
fn flowset_kind_predicates_and_conversions() {
    let (_, sets) = FlowSet::parse_bytes(&MULTI_FLOWSET_DATA).unwrap();
    assert!(sets[0].is_template() && !sets[0].is_option() && !sets[0].is_dataflow());
    assert!(sets[4].is_option());
    assert!(sets[6].is_dataflow());

    match (&sets[0], &sets[4], &sets[6]) {
        (
            FlowSet::DataTemplate(template),
            FlowSet::OptionTemplate(option),
            FlowSet::DataFlow(flow),
        ) => {
            assert!(matches!(FlowSet::from(template.clone()), FlowSet::DataTemplate(_)));
            assert!(matches!(FlowSet::from(option.clone()), FlowSet::OptionTemplate(_)));
            assert!(matches!(FlowSet::from(flow.clone()), FlowSet::DataFlow(_)));
        },
        _ => panic!("unexpected flowset kinds"),
    }
}
