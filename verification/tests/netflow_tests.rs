//! Tests for the full NetFlow v9 packet codec.

use netflow9::error::NetFlowError;
use netflow9::flowset::FlowSet;
use netflow9::netflow::NetFlow9;

const NETFLOWV9_DATA: [u8; 492] = [
    0x00, 0x09, 0x00, 0x07, 0x00, 0x53, 0xf4, 0x93, 0x5a, 0xd5, 0x6d, 0x6a,
    0x00, 0x00, 0x03, 0x73, 0x00, 0x00, 0x00, 0x00, 0x00, 0x00, 0x00, 0x5c,
    0x04, 0x00, 0x00, 0x15, 0x00, 0x15, 0x00, 0x04, 0x00, 0x16, 0x00, 0x04,
    0x00, 0x01, 0x00, 0x04, 0x00, 0x02, 0x00, 0x04, 0x00, 0x3c, 0x00, 0x01,
    0x00, 0x0a, 0x00, 0x02, 0x00, 0x0e, 0x00, 0x02, 0x00, 0x3d, 0x00, 0x01,
    0x00, 0x03, 0x00, 0x04, 0x00, 0x08, 0x00, 0x04, 0x00, 0x0c, 0x00, 0x04,
    0x00, 0x07, 0x00, 0x02, 0x00, 0x0b, 0x00, 0x02, 0x00, 0x05, 0x00, 0x01,
    0x00, 0x06, 0x00, 0x01, 0x00, 0x04, 0x00, 0x01, 0x00, 0x38, 0x00, 0x06,
    0x00, 0x50, 0x00, 0x06, 0x00, 0x3a, 0x00, 0x02, 0x00, 0xc9, 0x00, 0x04,
    0x00, 0x30, 0x00, 0x01, 0x00, 0x00, 0x00, 0x5c, 0x04, 0x01, 0x00, 0x15,
    0x00, 0x15, 0x00, 0x04, 0x00, 0x16, 0x00, 0x04, 0x00, 0x01, 0x00, 0x04,
    0x00, 0x02, 0x00, 0x04, 0x00, 0x3c, 0x00, 0x01, 0x00, 0x0a, 0x00, 0x02,
    0x00, 0x0e, 0x00, 0x02, 0x00, 0x3d, 0x00, 0x01, 0x00, 0x03, 0x00, 0x04,
    0x00, 0x08, 0x00, 0x04, 0x00, 0x0c, 0x00, 0x04, 0x00, 0x07, 0x00, 0x02,
    0x00, 0x0b, 0x00, 0x02, 0x00, 0x05, 0x00, 0x01, 0x00, 0x06, 0x00, 0x01,
    0x00, 0x04, 0x00, 0x01, 0x00, 0x51, 0x00, 0x06, 0x00, 0x39, 0x00, 0x06,
    0x00, 0x3b, 0x00, 0x02, 0x00, 0xc9, 0x00, 0x04, 0x00, 0x30, 0x00, 0x01,
    0x00, 0x00, 0x00, 0x5c, 0x08, 0x00, 0x00, 0x15, 0x00, 0x15, 0x00, 0x04,
    0x00, 0x16, 0x00, 0x04, 0x00, 0x01, 0x00, 0x04, 0x00, 0x02, 0x00, 0x04,
    0x00, 0x3c, 0x00, 0x01, 0x00, 0x0a, 0x00, 0x02, 0x00, 0x0e, 0x00, 0x02,
    0x00, 0x3d, 0x00, 0x01, 0x00, 0x03, 0x00, 0x04, 0x00, 0x1b, 0x00, 0x10,
    0x00, 0x1c, 0x00, 0x10, 0x00, 0x05, 0x00, 0x01, 0x00, 0x07, 0x00, 0x02,
    0x00, 0x0b, 0x00, 0x02, 0x00, 0x06, 0x00, 0x01, 0x00, 0x04, 0x00, 0x01,
    0x00, 0x38, 0x00, 0x06, 0x00, 0x50, 0x00, 0x06, 0x00, 0x3a, 0x00, 0x02,
    0x00, 0xc9, 0x00, 0x04, 0x00, 0x30, 0x00, 0x01, 0x00, 0x00, 0x00, 0x5c,
    0x08, 0x01, 0x00, 0x15, 0x00, 0x15, 0x00, 0x04, 0x00, 0x16, 0x00, 0x04,
    0x00, 0x01, 0x00, 0x04, 0x00, 0x02, 0x00, 0x04, 0x00, 0x3c, 0x00, 0x01,
    0x00, 0x0a, 0x00, 0x02, 0x00, 0x0e, 0x00, 0x02, 0x00, 0x3d, 0x00, 0x01,
    0x00, 0x03, 0x00, 0x04, 0x00, 0x1b, 0x00, 0x10, 0x00, 0x1c, 0x00, 0x10,
    0x00, 0x05, 0x00, 0x01, 0x00, 0x07, 0x00, 0x02, 0x00, 0x0b, 0x00, 0x02,
    0x00, 0x06, 0x00, 0x01, 0x00, 0x04, 0x00, 0x01, 0x00, 0x51, 0x00, 0x06,
    0x00, 0x39, 0x00, 0x06, 0x00, 0x3b, 0x00, 0x02, 0x00, 0xc9, 0x00, 0x04,
    0x00, 0x30, 0x00, 0x01, 0x00, 0x01, 0x00, 0x1a, 0x10, 0x00, 0x00, 0x04,
    0x00, 0x0c, 0x00, 0x01, 0x00, 0x04, 0x00, 0x30, 0x00, 0x01, 0x00, 0x31,
    0x00, 0x01, 0x00, 0x32, 0x00, 0x04, 0x10, 0x00, 0x00, 0x0e, 0x00, 0x00,
    0x00, 0x00, 0x01, 0x02, 0x00, 0x00, 0x00, 0x01, 0x04, 0x00, 0x00, 0x40,
    0x00, 0x52, 0x1b, 0x3d, 0x00, 0x52, 0x1b, 0x3d, 0x00, 0x00, 0x00, 0x28,
    0x00, 0x00, 0x00, 0x01, 0x04, 0x00, 0x03, 0x00, 0x00, 0x00, 0x00, 0x00,
    0x00, 0x00, 0xc0, 0xa8, 0x06, 0x65, 0xc0, 0xa8, 0x06, 0x66, 0x3e, 0x81,
    0xc1, 0xaa, 0x00, 0x14, 0x06, 0x08, 0x00, 0x27, 0x3a, 0xdd, 0x56, 0x90,
    0x1b, 0x0e, 0x95, 0x74, 0x93, 0x00, 0x00, 0x00, 0x00, 0x00, 0x03, 0x01,
];

#[test]
fn mod_test_netflow9() {
    let packet_bytes = &NETFLOWV9_DATA[..];
    let res = NetFlow9::from_bytes(&packet_bytes);
    assert!(res.is_ok());

    let netflow = res.unwrap();
    assert_eq!(netflow.version, 9);
    assert_eq!(netflow.count, 7);
    assert_eq!(netflow.sys_uptime, 5502099);
    assert_eq!(netflow.timestamp, 1523936618);
    assert_eq!(netflow.flow_sequence, 883);
    assert_eq!(netflow.flow_sets.len(), 7);
    assert!(netflow.flow_sets[0].is_template());
    assert!(netflow.flow_sets[1].is_template());
    assert!(netflow.flow_sets[2].is_template());
    assert!(netflow.flow_sets[3].is_template());
    assert!(netflow.flow_sets[4].is_option());
    assert!(netflow.flow_sets[5].is_dataflow());
    assert!(netflow.flow_sets[6].is_dataflow());
}

#[test]
fn packet_to_bytes_matches_input() {
    let packet_bytes = &NETFLOWV9_DATA[..];
    let res = NetFlow9::from_bytes(&packet_bytes).unwrap();

    let bytes: Vec<u8> = res.to_bytes();
    assert_eq!(&bytes, &packet_bytes);
}

#[test]
fn packet_byte_length_matches_input() {
    let packet_bytes = &NETFLOWV9_DATA[..];
    let mut netflow: NetFlow9 = NetFlow9::from_bytes(&packet_bytes).unwrap();

    for flowset in &mut netflow.flow_sets {
        match flowset {
            FlowSet::OptionTemplate(ref mut opt) => opt.set_padding(false),
            _ => (),
        }
    }

    let netflow_len = netflow.byte_length();
    assert_eq!(netflow_len, packet_bytes.len());
}

#[test]
fn packet_decode_encode_decode_is_stable() {
    let first = NetFlow9::from_bytes(&NETFLOWV9_DATA).unwrap();
    let bytes = first.to_bytes();
    let second = NetFlow9::from_bytes(&bytes).unwrap();
    assert_eq!(second.to_bytes(), bytes);
}

#[test]
fn packet_wrong_version_is_rejected() {
    let mut bad = NETFLOWV9_DATA.to_vec();
    bad[1] = 5;
    assert!(matches!(NetFlow9::from_bytes(&bad), Err(NetFlowError::InvalidFieldValue)));
}

#[test]
fn packet_padding_flags_are_uniform() {
    let mut netflow = NetFlow9::from_bytes(&NETFLOWV9_DATA).unwrap();
    netflow.set_padding(true);
    assert!(netflow.is_padding());
    netflow.set_padding(false);
    assert!(!netflow.is_padding());
}
