use canopen::node::{Node, NodeState};
use canopen::util::{create_frame, CanFrame};

const PDO_EDS: &str = "\
[1001]
ParameterName=Error register
ObjectType=0x7
DataType=0x0005
AccessType=ro
DefaultValue=0

[1003]
ParameterName=Pre-defined error field
ObjectType=0x8
DataType=0x0007
AccessType=ro
CompactSubObj=254

[1017]
ParameterName=Producer heartbeat time
ObjectType=0x7
DataType=0x0006
AccessType=rw
DefaultValue=0

[1400]
ParameterName=Receive PDO 0 Communication Parameter
ObjectType=0x9

[1400sub0]
ParameterName=Highest sub-index supported
ObjectType=0x7
DataType=0x0005
AccessType=ro
DefaultValue=2

[1400sub1]
ParameterName=COB-ID use by RPDO 1
ObjectType=0x7
DataType=0x0007
AccessType=rw
DefaultValue=$NODEID+0x200

[1400sub2]
ParameterName=Transmission type
ObjectType=0x7
DataType=0x0005
AccessType=rw
DefaultValue=1

[1600]
ParameterName=Receive PDO 0 Mapping Parameter
ObjectType=0x9

[1600sub0]
ParameterName=Number of mapped objects
ObjectType=0x7
DataType=0x0005
AccessType=rw
DefaultValue=2

[1600sub1]
ParameterName=Mapped object 1
ObjectType=0x7
DataType=0x0007
AccessType=rw
DefaultValue=0x20000010

[1600sub2]
ParameterName=Mapped object 2
ObjectType=0x7
DataType=0x0007
AccessType=rw
DefaultValue=0x20010008

[1800]
ParameterName=Transmit PDO 0 Communication Parameter
ObjectType=0x9

[1800sub0]
ParameterName=Highest sub-index supported
ObjectType=0x7
DataType=0x0005
AccessType=ro
DefaultValue=2

[1800sub1]
ParameterName=COB-ID use by TPDO 1
ObjectType=0x7
DataType=0x0007
AccessType=rw
DefaultValue=$NODEID+0x180

[1800sub2]
ParameterName=Transmission type
ObjectType=0x7
DataType=0x0005
AccessType=rw
DefaultValue=1

[1A00]
ParameterName=Transmit PDO 0 Mapping Parameter
ObjectType=0x9

[1A00sub0]
ParameterName=Number of mapped objects
ObjectType=0x7
DataType=0x0005
AccessType=rw
DefaultValue=2

[1A00sub1]
ParameterName=Mapped object 1
ObjectType=0x7
DataType=0x0007
AccessType=rw
DefaultValue=0x20000010

[1A00sub2]
ParameterName=Mapped object 2
ObjectType=0x7
DataType=0x0007
AccessType=rw
DefaultValue=0x20010008

[2000]
ParameterName=Output word
ObjectType=0x7
DataType=0x0006
AccessType=rw
PDOMapping=1
DefaultValue=0

[2001]
ParameterName=Output byte
ObjectType=0x7
DataType=0x0005
AccessType=rw
PDOMapping=1
DefaultValue=0
";

fn genf(cob_id: u16, data: &[u8]) -> CanFrame {
    create_frame(cob_id, data).unwrap()
}

fn send(node: &mut Node, req: &CanFrame) -> Vec<CanFrame> {
    node.process_one_frame(req);
    node.take_outbox()
}

fn start(node: &mut Node) -> Vec<CanFrame> {
    send(node, &genf(0x000, &[0x01, 0x02]))
}

#[test]
fn pdo_slots_come_from_the_data_sheet() {
    let mut node = Node::new(2, PDO_EDS).unwrap();
    let pdos = node.pdo_objects();
    assert_eq!(pdos.pdos[0].cob_id(), 0x202);
    assert_eq!(pdos.pdos[0].total_length(), 24);
    assert_eq!(pdos.pdos[0].transmission_type(), 1);
    assert_eq!(pdos.pdos[4].cob_id(), 0x182);
    assert_eq!(pdos.pdos[4].total_length(), 24);
    assert_eq!(pdos.cob_to_index.get(0x202), Some(0));
    assert_eq!(pdos.cob_to_index.get(0x182), Some(4));
}

#[test]
fn nmt_start_sends_the_transmit_pdos_once() {
    let mut node = Node::new(2, PDO_EDS).unwrap();
    assert_eq!(node.state, NodeState::Init);
    let out = start(&mut node);
    assert_eq!(node.state, NodeState::Operational);
    assert_eq!(out.len(), 1);
    assert_eq!(out[0].cob_id, 0x182);
    assert_eq!(out[0].data, vec![0, 0, 0]);
}

#[test]
fn nmt_commands_for_other_nodes_are_ignored() {
    let mut node = Node::new(2, PDO_EDS).unwrap();
    let out = send(&mut node, &genf(0x000, &[0x01, 0x03]));
    assert!(out.is_empty());
    assert_eq!(node.state, NodeState::Init);
    send(&mut node, &genf(0x000, &[0x02, 0x02]));
    assert_eq!(node.state, NodeState::Init);
    start(&mut node);
    send(&mut node, &genf(0x000, &[0x02, 0x02]));
    assert_eq!(node.state, NodeState::Stopped);
    send(&mut node, &genf(0x000, &[0x80, 0x02]));
    assert_eq!(node.state, NodeState::PreOperational);
}

#[test]
fn rpdo_is_committed_on_sync_and_tpdo_follows() {
    let mut node = Node::new(2, PDO_EDS).unwrap();
    start(&mut node);
    let out = send(&mut node, &genf(0x202, &[0x12, 0x34, 0x56]));
    assert!(out.is_empty());
    let out = send(&mut node, &genf(0x080, &[]));
    let w = node.object_directory.get_variable(0x2000, 0).unwrap();
    assert_eq!(w.default_value.to::<u16>(), 0x1234);
    let b = node.object_directory.get_variable(0x2001, 0).unwrap();
    assert_eq!(b.default_value.to::<u8>(), 0x56);
    assert_eq!(out.len(), 1);
    assert_eq!(out[0].cob_id, 0x182);
    assert_eq!(out[0].data.len(), (24 + 7) / 8);
    assert_eq!(out[0].data, vec![0x34, 0x12, 0x56]);
}

#[test]
fn rpdo_of_wrong_length_raises_an_emergency() {
    let mut node = Node::new(2, PDO_EDS).unwrap();
    start(&mut node);
    let out = send(&mut node, &genf(0x202, &[0x12, 0x34]));
    assert_eq!(out.len(), 2);
    assert_eq!(out[0].cob_id, 0x82);
    assert_eq!(out[0].data, vec![0x10, 0x82, 0x00, 0x02, 0x02, 0, 0, 0]);
    assert_eq!(out[1].cob_id, 0x82);
    assert_eq!(out[1].data, vec![0, 0, 0, 0x02, 0x02, 0, 0, 0]);
    assert_eq!(node.error_count, 1);
    let field = node.object_directory.get_variable(0x1003, 1).unwrap();
    assert_eq!(field.default_value.data(), &vec![0x10, 0x82, 0, 0]);
}

#[test]
fn nmt_reset_restores_the_dictionary() {
    let mut node = Node::new(2, PDO_EDS).unwrap();
    send(&mut node, &genf(0x602, &[0x2B, 0x00, 0x20, 0, 0x12, 0x34, 0, 0]));
    assert_eq!(node.object_directory.get_variable(0x2000, 0).unwrap().default_value.to::<u16>(), 0x3412);
    send(&mut node, &genf(0x000, &[0x81, 0x02]));
    assert_eq!(node.state, NodeState::Init);
    assert_eq!(node.object_directory.get_variable(0x2000, 0).unwrap().default_value.to::<u16>(), 0);
}

#[test]
fn communication_reset_keeps_application_entries() {
    let mut node = Node::new(2, PDO_EDS).unwrap();
    send(&mut node, &genf(0x602, &[0x2B, 0x00, 0x20, 0, 0x12, 0x34, 0, 0]));
    send(&mut node, &genf(0x602, &[0x2B, 0x17, 0x10, 0, 0x05, 0x00, 0, 0]));
    send(&mut node, &genf(0x000, &[0x82, 0x02]));
    assert_eq!(node.object_directory.get_variable(0x2000, 0).unwrap().default_value.to::<u16>(), 0x3412);
    assert_eq!(node.object_directory.get_variable(0x1017, 0).unwrap().default_value.to::<u16>(), 0);
}

#[test]
fn heartbeat_follows_the_producer_time() {
    let mut node = Node::new(2, PDO_EDS).unwrap();
    node.event_timer_callback();
    assert!(node.take_outbox().is_empty());
    assert_eq!(node.heartbeats, 1);
    send(&mut node, &genf(0x602, &[0x2B, 0x17, 0x10, 0, 0x02, 0x00, 0, 0]));
    assert_eq!(node.heartbeats_timer, 2);
    node.event_timer_callback();
    assert_eq!(node.heartbeats, 2);
    let out = node.take_outbox();
    assert_eq!(out.len(), 1);
    node.event_timer_callback();
    assert!(node.take_outbox().is_empty());
    node.event_timer_callback();
    let out = node.take_outbox();
    assert_eq!(out.len(), 1);
    assert_eq!(out[0].cob_id, 0x702);
    assert_eq!(out[0].data, vec![0]);
}

#[test]
fn pdo_parameter_writes_rederive_the_slot() {
    let mut node = Node::new(2, PDO_EDS).unwrap();
    let out = send(&mut node, &genf(0x602, &[0x23, 0x00, 0x14, 0x01, 0x02, 0x02, 0x00, 0x80]));
    assert_eq!(out[0].data, vec![0x60, 0x00, 0x14, 0x01, 0, 0, 0, 0]);
    assert!(!node.pdo_objects.pdos[0].is_pdo_valid);
    assert_eq!(node.pdo_objects.cob_to_index.get(0x202), None);
    let out = send(&mut node, &genf(0x602, &[0x23, 0x00, 0x14, 0x01, 0x03, 0x02, 0x00, 0x00]));
    assert_eq!(out[0].data[0], 0x60);
    assert!(node.pdo_objects.pdos[0].is_pdo_valid);
    assert_eq!(node.pdo_objects.cob_to_index.get(0x203), Some(0));
}

#[test]
fn mappings_over_64_bits_are_refused() {
    let mut node = Node::new(2, PDO_EDS).unwrap();
    let out = send(&mut node, &genf(0x602, &[0x23, 0x00, 0x16, 0x01, 0x40, 0x00, 0x00, 0x20]));
    assert_eq!(out[0].data, vec![0x80, 0x00, 0x16, 0x01, 0x42, 0x00, 0x04, 0x06]);
    assert_eq!(node.pdo_objects.pdos[0].total_length(), 24);
}

#[test]
fn mapping_unmappable_objects_is_refused() {
    let mut node = Node::new(2, PDO_EDS).unwrap();
    let out = send(&mut node, &genf(0x602, &[0x23, 0x00, 0x16, 0x01, 0x10, 0x00, 0x17, 0x10]));
    assert_eq!(out[0].data, vec![0x80, 0x00, 0x16, 0x01, 0x41, 0x00, 0x04, 0x06]);
}

#[test]
fn init_announces_the_node() {
    let mut node = Node::new(2, PDO_EDS).unwrap();
    node.init().unwrap();
    let out = node.take_outbox();
    assert_eq!(out[0].cob_id, 0x234);
    assert_eq!(out[0].data, vec![1, 2, 3, 5]);
}

#[test]
fn mapping_a_write_only_object_into_a_transmit_pdo_is_refused() {
    let eds = PDO_EDS.to_string() + "\n[2002]\nParameterName=Write only\nObjectType=0x7\nDataType=0x0005\nAccessType=wo\nPDOMapping=1\n";
    let mut node = Node::new(2, &eds).unwrap();
    let out = send(&mut node, &genf(0x602, &[0x23, 0x00, 0x1A, 0x02, 0x08, 0x00, 0x02, 0x20]));
    assert_eq!(out[0].data, vec![0x80, 0x00, 0x1A, 0x02, 0x41, 0x00, 0x04, 0x06]);
    let out = send(&mut node, &genf(0x602, &[0x23, 0x00, 0x16, 0x02, 0x08, 0x00, 0x02, 0x20]));
    assert_eq!(out[0].data, vec![0x60, 0x00, 0x16, 0x02, 0, 0, 0, 0]);
    let out = send(&mut node, &genf(0x602, &[0x23, 0x00, 0x16, 0x02, 0x08, 0x00, 0x99, 0x29]));
    assert_eq!(out[0].data, vec![0x80, 0x00, 0x16, 0x02, 0x41, 0x00, 0x04, 0x06]);
}

#[test]
fn timer_ticks_in_operational_run_event_passes() {
    let mut node = Node::new(2, PDO_EDS).unwrap();
    start(&mut node);
    node.event_timer_callback();
    assert_eq!(node.event_count, 1);
    send(&mut node, &genf(0x000, &[0x80, 0x02]));
    node.event_timer_callback();
    assert_eq!(node.event_count, 1);
}

#[test]
fn writes_to_other_pdo_parameters_keep_the_registration() {
    let mut node = Node::new(2, PDO_EDS).unwrap();
    let out = send(&mut node, &genf(0x602, &[0x2F, 0x00, 0x14, 0x02, 0xFE, 0, 0, 0]));
    assert_eq!(out[0].data[0], 0x60);
    assert_eq!(node.pdo_objects.pdos[0].transmission_type(), 0xFE);
    assert_eq!(node.pdo_objects.cob_to_index.get(0x202), Some(0));
    let out = send(&mut node, &genf(0x602, &[0x2F, 0x00, 0x16, 0x00, 0x01, 0, 0, 0]));
    assert_eq!(out[0].data[0], 0x60);
    assert_eq!(node.pdo_objects.pdos[0].total_length(), 16);
    assert_eq!(node.pdo_objects.cob_to_index.get(0x202), Some(0));
}

#[test]
fn an_unbuildable_transmit_pdo_is_skipped() {
    let mut node = Node::new(2, PDO_EDS).unwrap();
    let out = send(&mut node, &genf(0x602, &[0x23, 0x00, 0x18, 0x01, 0x00, 0x08, 0x00, 0x00]));
    assert_eq!(out[0].data[0], 0x60);
    let out = start(&mut node);
    assert!(out.is_empty());
    assert_eq!(node.state, NodeState::Operational);
}
