use canopen::node::Node;
use canopen::util::{create_frame, CanFrame};

const DEMO_EDS: &str = "\
[1000]
ParameterName=Device type
ObjectType=0x7
DataType=0x0007
AccessType=ro
DefaultValue=0x000F0191

[1001]
ParameterName=Error register
ObjectType=0x7
DataType=0x0005
AccessType=ro
DefaultValue=0

[1003]
ParameterName=Pre-defined error field
ObjectType=0x8

[1003sub0]
ParameterName=Number of errors
ObjectType=0x7
DataType=0x0005
AccessType=rw
DefaultValue=0

[1003sub1]
ParameterName=Standard error field
ObjectType=0x7
DataType=0x0007
AccessType=ro
DefaultValue=0

[1005]
ParameterName=COB-ID SYNC message
ObjectType=0x7
DataType=0x0007
AccessType=rw
DefaultValue=0x00000080

[1008]
ParameterName=Manufacturer device name
ObjectType=0x7
DataType=0x0009
AccessType=ro
DefaultValue=CANopenDemoPIC32

[1017]
ParameterName=Producer heartbeat time
ObjectType=0x7
DataType=0x0006
AccessType=rw
DefaultValue=0

[1200]
ParameterName=Server SDO parameter
ObjectType=0x9

[1200sub0]
ParameterName=Highest sub-index supported
ObjectType=0x7
DataType=0x0005
AccessType=ro
DefaultValue=2

[1200sub1]
ParameterName=COB-ID client to server
ObjectType=0x7
DataType=0x0007
AccessType=ro
DefaultValue=$NODEID+0x600

[1200sub2]
ParameterName=COB-ID server to client
ObjectType=0x7
DataType=0x0007
AccessType=ro
DefaultValue=$NODEID+0x580
";

fn new_node() -> Node {
    Node::new(2, DEMO_EDS).expect("node")
}

fn genf(cob_id: u16, data: &[u8]) -> CanFrame {
    create_frame(cob_id, data).unwrap()
}

fn send(node: &mut Node, req: &CanFrame) -> Vec<CanFrame> {
    node.process_one_frame(req);
    node.take_outbox()
}

fn exp(got: &[CanFrame], expected: &CanFrame) {
    assert!(
        got.iter().any(|f| f.cob_id == expected.cob_id && f.data == expected.data),
        "expected {:x?} among {:x?}",
        expected,
        got
    );
}

#[test]
fn test_write_and_read() {
    let mut s = new_node();
    let got = send(&mut s, &genf(0x602, &[0x40, 0x17, 0x10, 0, 0, 0, 0, 0]));
    exp(&got, &genf(0x582, &[0x4B, 0x17, 0x10, 0, 0, 0, 0, 0]));
    let got = send(&mut s, &genf(0x602, &[0x2B, 0x17, 0x10, 0, 0x12, 0x34, 0, 0]));
    exp(&got, &genf(0x582, &[0x60, 0x17, 0x10, 0, 0, 0, 0, 0]));
    let got = send(&mut s, &genf(0x602, &[0x40, 0x17, 0x10, 0, 0, 0, 0, 0]));
    exp(&got, &genf(0x582, &[0x4B, 0x17, 0x10, 0, 0x12, 0x34, 0, 0]));
}

#[test]
fn test_error_write() {
    let mut s = new_node();
    let got = send(&mut s, &genf(0x602, &[0x23, 0, 0x10, 0, 0x91, 0x01, 0x0F, 0]));
    exp(&got, &genf(0x582, &[0x80, 0, 0x10, 0, 0x02, 0, 0x01, 0x06]));
}

#[test]
fn test_error_read() {
    let mut s = new_node();
    let got = send(&mut s, &genf(0x602, &[0x40, 0, 0x10, 0x1, 0, 0, 0, 0]));
    exp(&got, &genf(0x582, &[0x80, 0, 0x10, 0x1, 0x11, 0, 0x09, 0x06]));
    let got = send(&mut s, &genf(0x602, &[0x40, 0x04, 0x10, 0, 0, 0, 0, 0]));
    exp(&got, &genf(0x582, &[0x80, 0x04, 0x10, 0, 0, 0, 0x02, 0x06]));
    let got = send(&mut s, &genf(0x602, &[0xE0, 0, 0x10, 0x0, 0, 0, 0, 0]));
    exp(&got, &genf(0x582, &[0x80, 0, 0x10, 0x0, 0x01, 0, 0x04, 0x05]));
}

#[test]
fn test_read_basic() {
    let mut s = new_node();
    let got = send(&mut s, &genf(0x602, &[0x40, 0, 0x10, 0x0, 0, 0, 0, 0]));
    exp(&got, &genf(0x582, &[0x43, 0, 0x10, 0x0, 0x91, 0x01, 0x0F, 0]));
}

#[test]
fn test_error_mismatch_length() {
    let mut s = new_node();
    let got = send(&mut s, &genf(0x602, &[0x40, 0x03, 0x10, 0, 0, 0, 0, 0]));
    exp(&got, &genf(0x582, &[0x4F, 0x03, 0x10, 0, 0, 0, 0, 0]));
    let got = send(&mut s, &genf(0x602, &[0x23, 0x03, 0x10, 0x0, 0x12, 0x34, 0, 0]));
    exp(&got, &genf(0x582, &[0x80, 0x03, 0x10, 0, 0x12, 0, 0x07, 0x6]));
    let got = send(&mut s, &genf(0x602, &[0x40, 0x05, 0x10, 0, 0, 0, 0, 0]));
    exp(&got, &genf(0x582, &[0x43, 0x05, 0x10, 0, 0x80, 0, 0, 0]));
    let got = send(&mut s, &genf(0x602, &[0x2F, 0x05, 0x10, 0, 0x12, 0, 0, 0]));
    exp(&got, &genf(0x582, &[0x80, 0x05, 0x10, 0, 0x13, 0, 0x07, 0x6]));
}

#[test]
fn test_with_node_id_in_expr() {
    let mut s = new_node();
    let got = send(&mut s, &genf(0x602, &[0x40, 0x00, 0x12, 0x1, 0, 0, 0, 0]));
    exp(&got, &genf(0x582, &[0x43, 0x00, 0x12, 0x1, 0x02, 0x06, 0, 0]));
    let got = send(&mut s, &genf(0x602, &[0x40, 0x00, 0x12, 0x2, 0, 0, 0, 0]));
    exp(&got, &genf(0x582, &[0x43, 0x00, 0x12, 0x2, 0x82, 0x05, 0, 0]));
}

#[test]
fn test_segment_upload() {
    let mut s = new_node();
    let got = send(&mut s, &genf(0x602, &[0x40, 0x08, 0x10, 0, 0, 0, 0, 0]));
    exp(&got, &genf(0x582, &[0x41, 0x08, 0x10, 0x0, 0x10, 0, 0, 0]));

    let t = [0x0, 0x43, 0x41, 0x4E, 0x6F, 0x70, 0x65, 0x6E];
    let got = send(&mut s, &genf(0x602, &[0x60, 0, 0, 0, 0, 0, 0, 0]));
    exp(&got, &genf(0x582, &t));

    let t = [0x10, 0x44, 0x65, 0x6D, 0x6F, 0x50, 0x49, 0x43];
    let got = send(&mut s, &genf(0x602, &[0x70, 0, 0, 0, 0, 0, 0, 0]));
    exp(&got, &genf(0x582, &t));

    let got = send(&mut s, &genf(0x602, &[0x60, 0, 0, 0, 0, 0, 0, 0]));
    exp(&got, &genf(0x582, &[0x0B, 0x33, 0x32, 0, 0, 0, 0, 0]));
}

#[test]
fn test_segment_upload_with_toggle_bit_error() {
    let mut s = new_node();
    let got = send(&mut s, &genf(0x602, &[0x40, 0x08, 0x10, 0, 0, 0, 0, 0]));
    exp(&got, &genf(0x582, &[0x41, 0x08, 0x10, 0x0, 0x10, 0, 0, 0]));

    let got = send(&mut s, &genf(0x602, &[0x70, 0, 0, 0, 0, 0, 0, 0]));
    exp(&got, &genf(0x582, &[0x80, 0x08, 0x10, 0, 0, 0, 0x03, 0x05]));
}

#[test]
fn test_segment_download_basic() {
    let mut s = new_node();
    let got = send(&mut s, &genf(0x602, &[0x21, 0x17, 0x10, 0x0, 0x02, 0, 0, 0]));
    exp(&got, &genf(0x582, &[0x60, 0x17, 0x10, 0, 0, 0, 0, 0]));

    let got = send(&mut s, &genf(0x602, &[0x0B, 0, 0, 0, 0, 0, 0, 0]));
    exp(&got, &genf(0x582, &[0x20, 0, 0, 0, 0, 0, 0, 0]));
}

#[test]
fn test_block_upload_without_crc() {
    let mut s = new_node();
    let got = send(&mut s, &genf(0x602, &[0xA0, 0x00, 0x10, 0x00, 0x14, 0, 0, 0]));
    exp(&got, &genf(0x582, &[0xC6, 0x00, 0x10, 0x00, 0x04, 0, 0, 0]));

    let got = send(&mut s, &genf(0x602, &[0xA3, 0, 0, 0, 0, 0, 0, 0]));
    exp(&got, &genf(0x582, &[0x81, 0x91, 0x01, 0x0F, 0, 0, 0, 0]));

    let got = send(&mut s, &genf(0x602, &[0xA2, 0x01, 0x14, 0, 0, 0, 0, 0]));
    exp(&got, &genf(0x582, &[0xCD, 0, 0, 0, 0, 0, 0, 0]));

    send(&mut s, &genf(0x602, &[0xA1, 0, 0, 0, 0, 0, 0, 0]));
}

#[test]
fn test_block_upload_string_without_crc() {
    let mut s = new_node();
    let got = send(&mut s, &genf(0x602, &[0xA0, 0x08, 0x10, 0x00, 0x14, 0, 0, 0]));
    exp(&got, &genf(0x582, &[0xC6, 0x08, 0x10, 0x00, 0x10, 0, 0, 0]));

    let got = send(&mut s, &genf(0x602, &[0xA3, 0, 0, 0, 0, 0, 0, 0]));
    let t = [0x01, 0x43, 0x41, 0x4E, 0x6F, 0x70, 0x65, 0x6E];
    exp(&got, &genf(0x582, &t));
    let t = [0x02, 0x44, 0x65, 0x6D, 0x6F, 0x50, 0x49, 0x43];
    exp(&got, &genf(0x582, &t));
    exp(&got, &genf(0x582, &[0x83, 0x33, 0x32, 0, 0, 0, 0, 0]));

    let got = send(&mut s, &genf(0x602, &[0xA2, 0x03, 0x14, 0, 0, 0, 0, 0]));
    exp(&got, &genf(0x582, &[0xD5, 0, 0, 0, 0, 0, 0, 0]));
    send(&mut s, &genf(0x602, &[0xA1, 0, 0, 0, 0, 0, 0, 0]));
}

#[test]
fn test_block_upload_string_with_crc() {
    let mut s = new_node();
    let got = send(&mut s, &genf(0x602, &[0xA4, 0x08, 0x10, 0x00, 0x14, 0, 0, 0]));
    exp(&got, &genf(0x582, &[0xC6, 0x08, 0x10, 0x00, 0x10, 0, 0, 0]));

    let got = send(&mut s, &genf(0x602, &[0xA3, 0, 0, 0, 0, 0, 0, 0]));
    let t = [0x01, 0x43, 0x41, 0x4E, 0x6F, 0x70, 0x65, 0x6E];
    exp(&got, &genf(0x582, &t));
    let t = [0x02, 0x44, 0x65, 0x6D, 0x6F, 0x50, 0x49, 0x43];
    exp(&got, &genf(0x582, &t));
    exp(&got, &genf(0x582, &[0x83, 0x33, 0x32, 0, 0, 0, 0, 0]));

    let got = send(&mut s, &genf(0x602, &[0xA2, 0x03, 0x14, 0, 0, 0, 0, 0]));
    exp(&got, &genf(0x582, &[0xD5, 0xF3, 0x43, 0, 0, 0, 0, 0]));
    send(&mut s, &genf(0x602, &[0xA1, 0, 0, 0, 0, 0, 0, 0]));
}

#[test]
fn test_block_upload_with_wrong_blocksize() {
    let mut s = new_node();
    let got = send(&mut s, &genf(0x602, &[0xA0, 0x00, 0x10, 0x00, 0x80, 0, 0, 0]));
    let t = [0x80, 0x00, 0x10, 0x00, 0x02, 0x00, 0x04, 0x05];
    exp(&got, &genf(0x582, &t));
}

#[test]
fn test_block_upload_with_wrong_ack_seqno() {
    let mut s = new_node();
    let got = send(&mut s, &genf(0x602, &[0xA0, 0x00, 0x10, 0x00, 0x14, 0, 0, 0]));
    exp(&got, &genf(0x582, &[0xC6, 0x00, 0x10, 0x00, 0x04, 0, 0, 0]));

    let got = send(&mut s, &genf(0x602, &[0xA3, 0, 0, 0, 0, 0, 0, 0]));
    exp(&got, &genf(0x582, &[0x81, 0x91, 0x01, 0x0F, 0, 0, 0, 0]));

    let got = send(&mut s, &genf(0x602, &[0xA2, 0x80, 0x14, 0, 0, 0, 0, 0]));
    let t = [0x80, 0x00, 0x10, 0x00, 0x01, 0x00, 0x04, 0x05];
    exp(&got, &genf(0x582, &t));
}

#[test]
fn test_block_download_without_crc() {
    let mut s = new_node();
    let got = send(&mut s, &genf(0x602, &[0xC2, 0x17, 0x10, 0x00, 0x02, 0, 0, 0]));
    exp(&got, &genf(0x582, &[0xA4, 0x17, 0x10, 0x00, 0x7F, 0, 0, 0]));

    let got = send(&mut s, &genf(0x602, &[0x81, 0, 0, 0, 0, 0, 0, 0]));
    exp(&got, &genf(0x582, &[0xA2, 0x01, 0x7F, 0, 0, 0, 0, 0]));

    let got = send(&mut s, &genf(0x602, &[0xD5, 0, 0, 0, 0, 0, 0, 0]));
    exp(&got, &genf(0x582, &[0xA1, 0, 0, 0, 0, 0, 0, 0]));
}

#[test]
fn test_block_download_with_crc() {
    let mut s = new_node();
    let got = send(&mut s, &genf(0x602, &[0xC6, 0x17, 0x10, 0x00, 0x02, 0, 0, 0]));
    exp(&got, &genf(0x582, &[0xA4, 0x17, 0x10, 0x00, 0x7F, 0, 0, 0]));

    let got = send(&mut s, &genf(0x602, &[0x81, 0, 0, 0, 0, 0, 0, 0]));
    exp(&got, &genf(0x582, &[0xA2, 0x01, 0x7F, 0, 0, 0, 0, 0]));

    let got = send(&mut s, &genf(0x602, &[0xD5, 0, 0, 0, 0, 0, 0, 0]));
    exp(&got, &genf(0x582, &[0xA1, 0, 0, 0, 0, 0, 0, 0]));
}

#[test]
fn block_download_with_bad_crc_is_aborted() {
    let mut s = new_node();
    send(&mut s, &genf(0x602, &[0xC6, 0x17, 0x10, 0x00, 0x02, 0, 0, 0]));
    send(&mut s, &genf(0x602, &[0x81, 0x12, 0x34, 0, 0, 0, 0, 0]));
    let got = send(&mut s, &genf(0x602, &[0xD5, 0x00, 0x00, 0, 0, 0, 0, 0]));
    exp(&got, &genf(0x582, &[0x80, 0x17, 0x10, 0x00, 0x04, 0x00, 0x04, 0x05]));
}

#[test]
fn block_download_with_wrong_sequence_is_aborted() {
    let mut s = new_node();
    send(&mut s, &genf(0x602, &[0xC2, 0x17, 0x10, 0x00, 0x02, 0, 0, 0]));
    let got = send(&mut s, &genf(0x602, &[0x82, 0, 0, 0, 0, 0, 0, 0]));
    exp(&got, &genf(0x582, &[0x80, 0x17, 0x10, 0x00, 0x03, 0x00, 0x04, 0x05]));
}

#[test]
fn frames_for_other_nodes_are_ignored() {
    let mut s = new_node();
    let got = send(&mut s, &genf(0x603, &[0x40, 0x17, 0x10, 0, 0, 0, 0, 0]));
    assert!(got.is_empty());
    let got = send(&mut s, &genf(0x602, &[0x40, 0x17, 0x10]));
    assert!(got.is_empty());
}

#[test]
fn segmented_upload_joins_to_the_stored_value() {
    let mut s = new_node();
    send(&mut s, &genf(0x602, &[0x40, 0x08, 0x10, 0, 0, 0, 0, 0]));
    let mut joined: Vec<u8> = Vec::new();
    let mut toggle = 0u8;
    let mut segments = 0;
    loop {
        let got = send(&mut s, &genf(0x602, &[0x60 | (toggle << 4), 0, 0, 0, 0, 0, 0, 0]));
        assert_eq!(got.len(), 1);
        let d = &got[0].data;
        segments += 1;
        if d[0] & 1 == 1 {
            let n = ((d[0] >> 1) & 7) as usize;
            joined.extend_from_slice(&d[1..8 - n]);
            break;
        }
        joined.extend_from_slice(&d[1..8]);
        toggle ^= 1;
    }
    assert_eq!(joined, b"CANopenDemoPIC32".to_vec());
    assert_eq!(segments, (16 + 6) / 7);
}
