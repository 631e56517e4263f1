use vstd::prelude::*;
use crate::constant::{COB_FUNC_HEARTBEAT, COB_FUNC_SYNC, REG_ERROR, REG_PRE_DEFINED_ERROR};
use crate::emergency::{EmergencyErrorCode, ErrorRegister};
use crate::error::{AbortCode, ErrorCode};
use crate::object_directory::{
    find_object, od_after_access, spec_variable, DirectoryView, ObjectDirectory, ObjectView,
    Variable,
};
use crate::pdo::{
    bits_of, bits_total, ceil8, cob_entries, mapped_bits, pack_data, should_trigger_pdo,
    spec_should_trigger, unpack_data, PdoObject, PdoObjects, MAX_PDO_MAPPING_LENGTH,
};
use crate::sdo_server::SdoState;
use crate::util::{create_frame, create_frame_with_padding, le_bytes_of, vec_to_u64, CanFrame};
use crate::value::Value;

verus! {

/// The block size a node offers for block downloads until a client asks
/// for another.
pub const DEFAULT_BLOCK_SIZE: u8 = 0x7F;

/// The NMT state of a node.
#[derive(PartialEq, Eq, Structural, Clone, Copy, Debug)]
pub enum NodeState {
    Init,
    PreOperational,
    Operational,
    Stopped,
}

impl NodeState {
    pub open spec fn spec_heartbeat_code(self) -> u8 {
        match self {
            NodeState::Init => 0,
            NodeState::PreOperational => 127,
            NodeState::Operational => 5,
            NodeState::Stopped => 4,
        }
    }

    /// The state byte that a heartbeat carries.
    pub fn heartbeat_code(&self) -> (r: u8)
        ensures
            r == self.spec_heartbeat_code(),
    {
        match *self {
            NodeState::Init => 0,
            NodeState::PreOperational => 127,
            NodeState::Operational => 5,
            NodeState::Stopped => 4,
        }
    }
}

/// What makes a PDO pass run besides a SYNC.
#[derive(PartialEq, Eq, Structural, Clone, Copy, Debug)]
pub enum NodeEvent {
    RegularTimerEvent,
    NodeStart,
    Unused,
}

/// A CANopen slave node. It takes frames and timer ticks and queues the
/// frames it answers with in `outbox`; the host moves them to the bus.
pub struct Node {
    pub node_id: u8,
    pub object_directory: ObjectDirectory,
    pub backup_od: ObjectDirectory,
    pub pdo_objects: PdoObjects,
    pub sdo_state: SdoState,
    pub read_buf: Option<Vec<u8>>,
    pub read_buf_index: usize,
    pub next_read_toggle: u8,
    pub write_buf: Option<Vec<u8>>,
    pub reserved_index: u16,
    pub reserved_sub_index: u8,
    pub write_data_size: usize,
    pub need_crc: bool,
    pub block_size: u8,
    pub current_seq_number: u8,
    pub crc_enabled: bool,
    pub sync_count: u32,
    pub event_count: u32,
    pub state: NodeState,
    pub error_count: u8,
    pub heartbeats: u32,
    pub heartbeats_timer: u32,
    pub outbox: Vec<CanFrame>,
}

/// The dictionary with the entries whose index lies in `lo..=hi` put back
/// from `backup`; those that `backup` lacks are dropped.
pub open spec fn reset_objects(objs: Seq<ObjectView>, backup: Seq<ObjectView>, lo: u16, hi: u16) -> Seq<ObjectView>
    decreases objs.len(),
{
    if objs.len() == 0 {
        Seq::empty()
    } else {
        let prev = reset_objects(objs.drop_last(), backup, lo, hi);
        let o = objs.last();
        if lo <= o.index() <= hi {
            match find_object(backup, o.index()) {
                Some(j) => prev.push(backup[j]),
                None => prev,
            }
        } else {
            prev.push(o)
        }
    }
}

impl Node {
    /// The counters, the NMT and SDO states and the node id are those of `o`.
    pub open spec fn keeps_counters(&self, o: &Node) -> bool {
        &&& self.sync_count == o.sync_count
        &&& self.event_count == o.event_count
        &&& self.error_count == o.error_count
        &&& self.heartbeats == o.heartbeats
        &&& self.heartbeats_timer == o.heartbeats_timer
        &&& self.state == o.state
        &&& self.node_id == o.node_id
        &&& self.sdo_state == o.sdo_state
        &&& self.read_buf == o.read_buf
        &&& self.read_buf_index == o.read_buf_index
        &&& self.next_read_toggle == o.next_read_toggle
        &&& self.write_buf == o.write_buf
        &&& self.reserved_index == o.reserved_index
        &&& self.reserved_sub_index == o.reserved_sub_index
        &&& self.write_data_size == o.write_data_size
        &&& self.need_crc == o.need_crc
        &&& self.block_size == o.block_size
        &&& self.current_seq_number == o.current_seq_number
        &&& self.crc_enabled == o.crc_enabled
    }

    /// The SDO transfer state is that of `o`.
    pub open spec fn sdo_kept(&self, o: &Node) -> bool {
        &&& self.sdo_state == o.sdo_state
        &&& self.read_buf == o.read_buf
        &&& self.read_buf_index == o.read_buf_index
        &&& self.write_buf == o.write_buf
    }

    /// The PDO slots are consistent and the outgoing frames fit the bus.
    pub open spec fn wf(&self) -> bool {
        &&& self.pdo_objects.wf()
        &&& forall|i: int| 0 <= i < self.outbox@.len() ==> (#[trigger] self.outbox@[i]).wf()
    }

    /// A node for `node_id` whose dictionary a data sheet describes; a copy
    /// of the dictionary is kept for NMT resets.
    pub fn new(node_id: u8, eds_content: &str) -> (r: Result<Self, ErrorCode>)
        ensures
            r matches Ok(n) ==> n.object_directory@ == n.backup_od@,
            r matches Ok(n) ==> forall|s: int| 0 <= s < 8 ==> #[trigger] crate::pdo::derived_from_default(n.object_directory@, s, n.pdo_objects.pdos@[s]),
            r matches Ok(n) ==> n.wf() && n.sdo_consistent() && n.outbox@.len() == 0 && n.state == NodeState::Init && n.node_id == node_id && n.sdo_state == SdoState::Normal
                && crate::object_directory::spec_load(DirectoryView { node_id, objects: Seq::empty() }, crate::object_directory::ini_items_of(eds_content@)) == Some(n.backup_od@),
            crate::object_directory::spec_load(DirectoryView { node_id, objects: Seq::empty() }, crate::object_directory::ini_items_of(eds_content@)) is None ==> r is Err,
            r matches Err(e) ==> crate::object_directory::spec_load(DirectoryView { node_id, objects: Seq::empty() }, crate::object_directory::ini_items_of(eds_content@)) is None
                || crate::object_directory::is_abort(e, AbortCode::ExceedPDOSize)
                || crate::object_directory::is_abort(e, AbortCode::ObjectCannotBeMappedToPDO),
    {
        let object_directory = match ObjectDirectory::new(node_id, eds_content) {
            Ok(od) => od,
            Err(e) => return Err(e),
        };
        let backup_od = object_directory.copy();
        let mut node = Node {
            node_id,
            object_directory,
            backup_od,
            pdo_objects: PdoObjects::new(),
            sdo_state: SdoState::Normal,
            read_buf: None,
            read_buf_index: 0,
            next_read_toggle: 0,
            write_buf: None,
            reserved_index: 0,
            reserved_sub_index: 0,
            write_data_size: 0,
            need_crc: false,
            block_size: DEFAULT_BLOCK_SIZE,
            current_seq_number: 0,
            crc_enabled: true,
            sync_count: 0,
            event_count: 0,
            state: NodeState::Init,
            error_count: 0,
            heartbeats: 0,
            heartbeats_timer: 0,
            outbox: Vec::new(),
        };
        let ghost pdos0 = node.pdo_objects.pdos@;
        match node.update_pdo_params() {
            Ok(()) => {
                assert forall|s: int| 0 <= s < 8 implies #[trigger] crate::pdo::derived_from_default(node.object_directory@, s, node.pdo_objects.pdos@[s]) by {
                    assert(pdos0[s].is_default());
                    assert(crate::pdo::slot_derived(node.object_directory@, s, pdos0[s], node.pdo_objects.pdos@[s]));
                }
                Ok(node)
            },
            Err(e) => Err(e),
        }
    }

    /// The PDO slots.
    pub fn pdo_objects(&mut self) -> (r: &mut PdoObjects)
        ensures
            *r == old(self).pdo_objects,
    {
        &mut self.pdo_objects
    }

    /// Queues a frame for the bus.
    pub fn transmit(&mut self, frame: CanFrame)
        requires
            old(self).wf(),
            frame.wf(),
        ensures
            final(self).wf(),
            final(self).outbox@ == old(self).outbox@.push(frame),
            final(self).object_directory == old(self).object_directory,
            final(self).backup_od == old(self).backup_od,
            final(self).pdo_objects == old(self).pdo_objects,
            final(self).state == old(self).state,
            final(self).node_id == old(self).node_id,
            final(self).sdo_state == old(self).sdo_state,
            final(self).keeps_counters(old(self)),
    {
        self.outbox.push(frame);
    }

    /// Hands over the frames queued so far.
    pub fn take_outbox(&mut self) -> (r: Vec<CanFrame>)
        requires
            old(self).wf(),
        ensures
            r@ == old(self).outbox@,
            final(self).outbox@.len() == 0,
            final(self).wf(),
            final(self).object_directory == old(self).object_directory,
            final(self).backup_od == old(self).backup_od,
            final(self).state == old(self).state,
    {
        let mut out: Vec<CanFrame> = Vec::new();
        std::mem::swap(&mut out, &mut self.outbox);
        out
    }

    /// Whether a frame is not addressed to this node.
    pub fn filter_frame(&self, frame: &CanFrame) -> (r: bool)
        ensures
            r == (frame.cob_id % 0x80 != self.node_id as u16),
    {
        frame.cob_id % 0x80 != self.node_id as u16
    }

    /// Puts back from the backup the entries whose index lies in `lo..=hi`.
    #[verifier::spinoff_prover]
    pub fn reset_object_directory_range(&mut self, lo: u16, hi: u16) -> (r: bool)
        ensures
            final(self).sdo_kept(old(self)),
            r,
            final(self).object_directory@ == (DirectoryView {
                objects: reset_objects(old(self).object_directory@.objects, old(self).backup_od@.objects, lo, hi),
                ..old(self).object_directory@
            }),
            final(self).backup_od == old(self).backup_od,
            final(self).pdo_objects == old(self).pdo_objects,
            final(self).outbox == old(self).outbox,
            final(self).state == old(self).state,
            final(self).node_id == old(self).node_id,
            final(self).sdo_state == old(self).sdo_state,
    {
        let objs = &self.object_directory.index_to_object;
        let mut fresh: Vec<crate::object_directory::ObjectType> = Vec::new();
        let ghost ov = self.object_directory@.objects;
        let ghost bv = self.backup_od@.objects;
        proof {
            crate::object_directory::lemma_object_views(objs@);
            crate::object_directory::lemma_object_views(fresh@);
        }
        let mut i: usize = 0;
        while i < objs.len()
            invariant
                i <= objs@.len(),
                ov == crate::object_directory::object_views(objs@),
                ov.len() == objs@.len(),
                bv == self.backup_od@.objects,
                crate::object_directory::object_views(fresh@) == reset_objects(ov.subrange(0, i as int), bv, lo, hi),
            decreases objs@.len() - i,
        {
            let o = &objs[i];
            let idx = o.index();
            proof {
                crate::object_directory::lemma_object_views(objs@);
                crate::object_directory::lemma_object_views(fresh@);
                assert(ov.subrange(0, i + 1).drop_last() =~= ov.subrange(0, i as int));
                assert(ov.subrange(0, i + 1).last() == o@);
            }
            let ghost before = fresh@;
            if lo <= idx && idx <= hi {
                match self.backup_od.get_object(idx) {
                    Some(b) => {
                        let c = b.copy();
                        fresh.push(c);
                    },
                    None => {},
                }
            } else {
                fresh.push(o.copy());
            }
            proof {
                crate::object_directory::lemma_object_views(fresh@);
                crate::object_directory::lemma_object_views(before);
                crate::object_directory::lemma_find_object(bv, idx);
            }
            assert(crate::object_directory::object_views(fresh@) =~= reset_objects(ov.subrange(0, i + 1), bv, lo, hi));
            i = i + 1;
        }
        assert(ov.subrange(0, i as int) =~= ov);
        self.object_directory.index_to_object = fresh;
        true
    }

    /// Puts back the communication entries, `0x1000..=0x1FFF`.
    pub fn reset_communication(&mut self) -> (r: bool)
        ensures
            final(self).sdo_kept(old(self)),
            r,
            final(self).object_directory@ == (DirectoryView {
                objects: reset_objects(old(self).object_directory@.objects, old(self).backup_od@.objects, 0x1000, 0x1FFF),
                ..old(self).object_directory@
            }),
            final(self).backup_od == old(self).backup_od,
            final(self).pdo_objects == old(self).pdo_objects,
            final(self).outbox == old(self).outbox,
            final(self).state == old(self).state,
            final(self).node_id == old(self).node_id,
            final(self).sdo_state == old(self).sdo_state,
    {
        self.reset_object_directory_range(0x1000, 0x1FFF)
    }

    /// Puts back the application entries, `0x6000..=0x9FFF`.
    pub fn reset_application(&mut self) -> (r: bool)
        ensures
            final(self).sdo_kept(old(self)),
            r,
            final(self).object_directory@ == (DirectoryView {
                objects: reset_objects(old(self).object_directory@.objects, old(self).backup_od@.objects, 0x6000, 0x9FFF),
                ..old(self).object_directory@
            }),
            final(self).backup_od == old(self).backup_od,
            final(self).pdo_objects == old(self).pdo_objects,
            final(self).outbox == old(self).outbox,
            final(self).state == old(self).state,
            final(self).node_id == old(self).node_id,
            final(self).sdo_state == old(self).sdo_state,
    {
        self.reset_object_directory_range(0x6000, 0x9FFF)
    }

    /// Puts back the whole dictionary: afterwards it is the backup taken
    /// at construction, entry for entry and byte for byte.
    pub fn reset(&mut self) -> (r: bool)
        ensures
            final(self).sdo_kept(old(self)),
            r,
            final(self).object_directory@ == old(self).backup_od@,
            final(self).backup_od == old(self).backup_od,
            final(self).pdo_objects == old(self).pdo_objects,
            final(self).outbox == old(self).outbox,
            final(self).state == old(self).state,
            final(self).node_id == old(self).node_id,
            final(self).sdo_state == old(self).sdo_state,
    {
        self.object_directory = self.backup_od.copy();
        true
    }
}

/// The dictionary after an emergency is recorded: the error count at
/// 0x1003:0, the code at 0x1003:count, the error register at 0x1001:0.
pub open spec fn emcy_records(od: DirectoryView, count: u8, code: (u8, u8), reg: u8) -> DirectoryView {
    let od2 = emcy_step2(od, count, code);
    crate::object_directory::od_with_value(od_after_access(od2, REG_ERROR, 0), REG_ERROR, 0, seq![reg])
}

/// The dictionary after the error count is written.
pub open spec fn emcy_step1(od: DirectoryView, count: u8) -> DirectoryView {
    crate::object_directory::od_with_value(od_after_access(od, REG_PRE_DEFINED_ERROR, 0), REG_PRE_DEFINED_ERROR, 0, seq![count])
}

/// The dictionary after the error count and the error code are written.
pub open spec fn emcy_step2(od: DirectoryView, count: u8, code: (u8, u8)) -> DirectoryView {
    let od1 = emcy_step1(od, count);
    crate::object_directory::od_with_value(od_after_access(od1, REG_PRE_DEFINED_ERROR, count), REG_PRE_DEFINED_ERROR, count, seq![code.0, code.1, 0u8, 0u8])
}

/// A write of `len` bytes, access checks bypassed, to `(index, sub)` of `od`
/// succeeds.
pub open spec fn bypass_write_ok(od: DirectoryView, index: u16, sub: u8, len: nat) -> bool {
    spec_variable(od, index, sub) matches Ok(v) && crate::object_directory::write_check(v, len, true) is None
}

/// The three emergency records can be written: 0x1003:0 (one byte),
/// 0x1003:count (four bytes) and 0x1001:0 (one byte).
pub open spec fn emcy_writable(od: DirectoryView, count: u8, code: (u8, u8)) -> bool {
    &&& bypass_write_ok(od, REG_PRE_DEFINED_ERROR, 0, 1)
    &&& bypass_write_ok(emcy_step1(od, count), REG_PRE_DEFINED_ERROR, count, 4)
    &&& bypass_write_ok(emcy_step2(od, count, code), REG_ERROR, 0, 1)
}

/// What an NMT command `frame` does, from node `o` to node `n`.
pub open spec fn nmt_post(o: Node, n: Node, frame: CanFrame) -> bool {
        let d = frame.data@;
        let addressed = d.len() == 2 && d[1] == o.node_id;
        &&& (addressed && d[0] == 0x01 ==> n.state == NodeState::Operational)
        &&& (addressed && d[0] == 0x02 ==> n.state == if o.state == NodeState::Init { NodeState::Init } else { NodeState::Stopped })
        &&& (addressed && d[0] == 0x80 ==> n.state == NodeState::PreOperational)
        &&& (addressed && d[0] == 0x81 ==> n.state == NodeState::Init && n.object_directory@ == o.backup_od@)
        &&& (addressed && d[0] == 0x82 ==> n.state == NodeState::Init && n.object_directory@ == (DirectoryView {
            objects: reset_objects(o.object_directory@.objects, o.backup_od@.objects, 0x1000, 0x1FFF),
            ..o.object_directory@
        }))
        &&& (!(addressed && (d[0] == 0x01 || d[0] == 0x02 || d[0] == 0x80 || d[0] == 0x81 || d[0] == 0x82)) ==> n.state == o.state && n.object_directory == o.object_directory
            && n.outbox == o.outbox && n.pdo_objects == o.pdo_objects && n.keeps_counters(&o))
        &&& (addressed && d[0] == 0x01 ==> n.event_count == 0 && n.sync_count == 0 && n.error_count == 0 && n.heartbeats == 0)
        &&& (addressed && d[0] == 0x01 ==> crate::pdo::tpdo_pass(o.object_directory@, o.pdo_objects, o.outbox@, n.outbox@, false, true, 0))
        &&& (addressed && d[0] != 0x01 ==> n.outbox == o.outbox && n.pdo_objects == o.pdo_objects)
}

/// What a receive PDO `frame` does, from node `o` to node `n`.
pub open spec fn rpdo_post(o: Node, n: Node, frame: CanFrame) -> bool {
        let t = cob_entries(o.pdo_objects.cob_to_index);
        let c = frame.cob_id;
        if t.contains_key(c) && t[c] < 4 {
            let p = o.pdo_objects.pdos@[t[c] as int];
            if frame.data@.len() == ceil8(p.total_length as nat) {
                n.pdo_objects.pdos@[t[c] as int].cached_data@ == frame.data@
                    && n.outbox == o.outbox
            } else {
                n.pdo_objects.pdos == o.pdo_objects.pdos
                    && n.outbox@.len() >= o.outbox@.len() + 1
                    && n.outbox@[o.outbox@.len() as int].cob_id == (0x80u16 | o.node_id as u16)
                    && n.outbox@[o.outbox@.len() as int].data@ == crate::util::fit8(
                        seq![0x10u8, 0x82u8, 0x00u8, (c % 0x100) as u8, (c / 0x100) as u8])
                    && (emcy_writable(o.object_directory@, o.error_count.wrapping_add(1), code_bytes(0x8210u16))
                        ==> n.outbox@.len() == o.outbox@.len() + 2
                        && n.outbox@[o.outbox@.len() as int + 1].cob_id == (0x80u16 | o.node_id as u16)
                        && n.outbox@[o.outbox@.len() as int + 1].data@ == crate::util::fit8(
                            seq![0x00u8, 0x00u8, 0x00u8, (c % 0x100) as u8, (c / 0x100) as u8])
                        && n.error_count == o.error_count.wrapping_add(1)
                        && n.object_directory@ == emcy_records(o.object_directory@, o.error_count.wrapping_add(1), code_bytes(0x8210u16), 0))
            }
        } else {
            n.pdo_objects == o.pdo_objects && n.outbox == o.outbox
        }
}

/// The two bytes of an emergency code, low byte first.
pub open spec fn code_bytes(code: u16) -> (u8, u8) {
    ((code % 0x100) as u8, (code / 0x100) as u8)
}

impl Node {
    /// Emits an emergency frame `(code low, code high, register, data..)`
    /// on `0x80 + node_id`, records it in the pre-defined error field
    /// (0x1003) and the error register (0x1001), then emits the reset frame
    /// `(0, 0, 0, data..)`.
    #[verifier::spinoff_prover]
    pub fn trigger_emergency(&mut self, eec: EmergencyErrorCode, er: ErrorRegister, data: &[u8]) -> (r: Result<(), ErrorCode>)
        requires
            old(self).wf(),
        ensures
            final(self).sdo_kept(old(self)),
            final(self).wf(),
            final(self).backup_od == old(self).backup_od,
            final(self).pdo_objects == old(self).pdo_objects,
            final(self).state == old(self).state,
            final(self).node_id == old(self).node_id,
            final(self).sdo_state == old(self).sdo_state,
            final(self).outbox@.len() >= old(self).outbox@.len() + 1
                && final(self).outbox@[old(self).outbox@.len() as int].cob_id == (0x80u16 | old(self).node_id as u16)
                && final(self).outbox@[old(self).outbox@.len() as int].data@ == crate::util::fit8(
                    seq![code_bytes(eec.spec_code()).0, code_bytes(eec.spec_code()).1, er.spec_code()] + data@,
                ),
            final(self).outbox@.len() <= old(self).outbox@.len() + 2,
            emcy_writable(old(self).object_directory@, old(self).error_count.wrapping_add(1), code_bytes(eec.spec_code())) ==> r is Ok,
            r is Ok ==> final(self).outbox@.len() == old(self).outbox@.len() + 2 && final(self).error_count == old(self).error_count.wrapping_add(1)
                && final(self).outbox@[old(self).outbox@.len() as int + 1].cob_id == (0x80u16 | old(self).node_id as u16)
                && final(self).outbox@[old(self).outbox@.len() as int + 1].data@ == crate::util::fit8(seq![0u8, 0u8, 0u8] + data@)
                && final(self).object_directory@ == emcy_records(
                    old(self).object_directory@,
                    old(self).error_count.wrapping_add(1),
                    code_bytes(eec.spec_code()),
                    er.spec_code(),
                ),
    {
        let code = eec.code();
        let eecl = (code % 0x100) as u8;
        let eech = (code / 0x100) as u8;
        let erc = er.code();
        let mut v: Vec<u8> = vec![eecl, eech, erc];
        let mut i: usize = 0;
        let ghost head = v@;
        while i < data.len()
            invariant
                i <= data@.len(),
                v@ == head + data@.subrange(0, i as int),
            decreases data@.len() - i,
        {
            v.push(data[i]);
            assert(v@ =~= head + data@.subrange(0, i + 1));
            i = i + 1;
        }
        assert(data@.subrange(0, i as int) =~= data@);
        assert(head =~= seq![code_bytes(eec.spec_code()).0, code_bytes(eec.spec_code()).1, er.spec_code()]);
        let nid16: u16 = self.node_id as u16;
        proof {
            assert((0x80u16 | nid16) <= 0xFF) by (bit_vector)
                requires
                    nid16 <= 0xFF,
            ;
            if nid16 < 0x80 {
                assert((0x80u16 | nid16) == 0x80 + nid16) by (bit_vector)
                    requires
                        nid16 < 0x80,
                ;
            }
        }
        let frame = match create_frame_with_padding(COB_FUNC_SYNC | self.node_id as u16, v.as_slice()) {
            Ok(f) => f,
            Err(e) => return Err(e),
        };
        self.transmit(frame);
        let tmp_count = self.error_count.wrapping_add(1);
        let rec0: Vec<u8> = vec![tmp_count];
        let rec1: Vec<u8> = vec![eecl, eech, 0, 0];
        let rec2: Vec<u8> = vec![erc];
        assert(rec0@ =~= seq![tmp_count]);
        assert(rec1@ =~= seq![eecl, eech, 0u8, 0u8]);
        assert(rec2@ =~= seq![erc]);
        let ghost od0 = self.object_directory@;
        if let Err(e) = self.object_directory.set_value(REG_PRE_DEFINED_ERROR, 0x0, rec0.as_slice(), true) {
            return Err(e);
        }
        if let Err(e) = self.object_directory.set_value(REG_PRE_DEFINED_ERROR, tmp_count, rec1.as_slice(), true) {
            return Err(e);
        }
        if let Err(e) = self.object_directory.set_value(REG_ERROR, 0x0, rec2.as_slice(), true) {
            return Err(e);
        }
        assert(self.object_directory@ == emcy_records(od0, tmp_count, code_bytes(eec.spec_code()), er.spec_code()));
        let nid16b: u16 = self.node_id as u16;
        proof {
            assert((0x80u16 | nid16b) <= 0xFF) by (bit_vector)
                requires
                    nid16b <= 0xFF,
            ;
        }
        self.error_count = tmp_count;
        let mut reset_v: Vec<u8> = vec![0, 0, 0];
        let ghost head0 = reset_v@;
        let mut j: usize = 0;
        while j < data.len()
            invariant
                j <= data@.len(),
                reset_v@ == head0 + data@.subrange(0, j as int),
            decreases data@.len() - j,
        {
            reset_v.push(data[j]);
            assert(reset_v@ =~= head0 + data@.subrange(0, j + 1));
            j = j + 1;
        }
        assert(data@.subrange(0, j as int) =~= data@);
        assert(head0 =~= seq![0u8, 0u8, 0u8]);
        assert(reset_v@ =~= seq![0u8, 0u8, 0u8] + data@);
        let reset_frame = match create_frame_with_padding(COB_FUNC_SYNC | self.node_id as u16, reset_v.as_slice()) {
            Ok(f) => f,
            Err(e) => return Err(e),
        };
        self.transmit(reset_frame);
        Ok(())
    }

    /// Handles an NMT command `(cs, node id)` addressed to this node:
    /// 0x01 starts it (Operational, with a node start event), 0x02 stops it
    /// unless it is in Init, 0x80 makes it pre-operational, 0x81 resets it
    /// and restores the whole dictionary from the backup, 0x82 resets the
    /// communication entries. Other frames change nothing.
    pub fn process_nmt_frame(&mut self, frame: &CanFrame)
        requires
            old(self).wf(),
        ensures
            final(self).sdo_kept(old(self)),
            final(self).wf(),
            final(self).backup_od == old(self).backup_od,
            final(self).node_id == old(self).node_id,
            nmt_post(*old(self), *final(self), *frame),
    {
        if frame.data.len() != 2 {
            return;
        }
        let cs = frame.data[0];
        let nid = frame.data[1];
        if nid != self.node_id {
            return;
        }
        if cs == 1 {
            self.state = NodeState::Operational;
            self.trigger_event(NodeEvent::NodeStart);
        } else if cs == 2 {
            if self.state != NodeState::Init {
                self.state = NodeState::Stopped;
            }
        } else if cs == 0x80 {
            self.state = NodeState::PreOperational;
        } else if cs == 0x81 {
            self.state = NodeState::Init;
            self.reset();
        } else if cs == 0x82 {
            self.state = NodeState::Init;
            self.reset_communication();
        }
    }

    /// At a node start: zeroes the counters and sends every valid transmit
    /// PDO once.
    pub fn trigger_event(&mut self, event: NodeEvent)
        requires
            old(self).wf(),
        ensures
            final(self).sdo_kept(old(self)),
            final(self).wf(),
            final(self).backup_od == old(self).backup_od,
            final(self).state == old(self).state,
            final(self).node_id == old(self).node_id,
            final(self).sdo_state == old(self).sdo_state,
            final(self).pdo_objects == old(self).pdo_objects,
            event == NodeEvent::NodeStart ==> final(self).event_count == 0 && final(self).sync_count == 0 && final(self).error_count == 0 && final(self).heartbeats == 0,
            event == NodeEvent::NodeStart ==> crate::pdo::tpdo_pass(old(self).object_directory@, old(self).pdo_objects, old(self).outbox@, final(self).outbox@, false, true, 0),
            event != NodeEvent::NodeStart ==> final(self).object_directory == old(self).object_directory && final(self).outbox == old(self).outbox,
    {
        if event == NodeEvent::NodeStart {
            self.event_count = 0;
            self.sync_count = 0;
            self.error_count = 0;
            self.heartbeats = 0;
            let _ = self.call_tpdo(false, event, 0);
        }
    }

    /// Sends the transmit PDOs that fire.
    pub fn call_tpdo(&mut self, is_sync: bool, event: NodeEvent, count: u32) -> (r: Result<(), ErrorCode>)
        requires
            old(self).wf(),
        ensures
            final(self).sdo_kept(old(self)),
            final(self).wf(),
            final(self).backup_od == old(self).backup_od,
            final(self).pdo_objects == old(self).pdo_objects,
            final(self).state == old(self).state,
            final(self).node_id == old(self).node_id,
            final(self).sdo_state == old(self).sdo_state,
            final(self).event_count == old(self).event_count,
            final(self).sync_count == old(self).sync_count,
            final(self).error_count == old(self).error_count,
            final(self).heartbeats == old(self).heartbeats,
            final(self).heartbeats_timer == old(self).heartbeats_timer,
            final(self).outbox@.subrange(0, old(self).outbox@.len() as int) == old(self).outbox@,
            final(self).outbox@.len() >= old(self).outbox@.len(),
            r is Ok,
            final(self).object_directory == old(self).object_directory,
            crate::pdo::tpdo_pass(old(self).object_directory@, old(self).pdo_objects, old(self).outbox@, final(self).outbox@, is_sync, event == NodeEvent::NodeStart, count),
    {
        self.transmit_pdo_messages(is_sync, event, count)
    }

    /// On a SYNC while operational: counts it, commits the receive PDOs
    /// that fire, then sends the transmit PDOs that fire.
    pub fn process_sync_frame(&mut self)
        requires
            old(self).wf(),
        ensures
            final(self).sdo_kept(old(self)),
            final(self).wf(),
            final(self).backup_od == old(self).backup_od,
            final(self).state == old(self).state,
            final(self).node_id == old(self).node_id,
            final(self).sdo_state == old(self).sdo_state,
            old(self).state == NodeState::Operational ==> final(self).sync_count == old(self).sync_count.wrapping_add(1),
            old(self).state == NodeState::Operational ==> ({
                let c = old(self).sync_count.wrapping_add(1);
                let mid = crate::pdo::rpdo_commit(old(self).object_directory@, old(self).pdo_objects.pdos@, 4, true, false, c);
                &&& final(self).object_directory@ == mid
                &&& (crate::pdo::tpdo_pass(mid, final(self).pdo_objects, old(self).outbox@, final(self).outbox@, true, false, c))
            }),
            old(self).state != NodeState::Operational ==> final(self).sync_count == old(self).sync_count && final(self).object_directory == old(self).object_directory && final(self).outbox == old(self).outbox,
    {
        if self.state == NodeState::Operational {
            self.sync_count = self.sync_count.wrapping_add(1);
            let c = self.sync_count;
            self.save_rpdo_messages(true, NodeEvent::Unused, c);
            let _ = self.call_tpdo(true, NodeEvent::Unused, c);
        }
    }

    /// The periodic tick: counts heartbeats and sends one (the state code on
    /// `0x700 + node_id`) whenever the count is a multiple of the producer
    /// heartbeat time; while operational it also runs the event-driven PDO
    /// pass.
    #[verifier::spinoff_prover]
    pub fn event_timer_callback(&mut self)
        requires
            old(self).wf(),
        ensures
            final(self).sdo_kept(old(self)),
            final(self).wf(),
            final(self).backup_od == old(self).backup_od,
            final(self).state == old(self).state,
            final(self).node_id == old(self).node_id,
            final(self).sdo_state == old(self).sdo_state,
            final(self).heartbeats == old(self).heartbeats.wrapping_add(1),
            old(self).state == NodeState::Operational ==> final(self).event_count == old(self).event_count.wrapping_add(1),
            old(self).state == NodeState::Operational ==> ({
                let e = old(self).event_count.wrapping_add(1);
                let beat = old(self).heartbeats_timer > 0 && old(self).heartbeats.wrapping_add(1) % old(self).heartbeats_timer == 0;
                let l1 = old(self).outbox@.len() + if beat { 1int } else { 0int };
                let mid = crate::pdo::rpdo_commit(old(self).object_directory@, old(self).pdo_objects.pdos@, 4, false, false, e);
                &&& final(self).object_directory@ == mid
                &&& (l1 <= final(self).outbox@.len() && crate::pdo::tpdo_pass(mid, final(self).pdo_objects, final(self).outbox@.subrange(0, l1), final(self).outbox@, false, false, e))
            }),
            old(self).state != NodeState::Operational ==> final(self).event_count == old(self).event_count
                && final(self).pdo_objects == old(self).pdo_objects && final(self).object_directory == old(self).object_directory,
            ({
                let beat = old(self).heartbeats_timer > 0 && old(self).heartbeats.wrapping_add(1) % old(self).heartbeats_timer == 0;
                &&& (beat ==> final(self).outbox@.len() > old(self).outbox@.len()
                    && final(self).outbox@[old(self).outbox@.len() as int].cob_id == 0x700 + old(self).node_id
                    && final(self).outbox@[old(self).outbox@.len() as int].data@ == seq![old(self).state.spec_heartbeat_code()])
                &&& (!beat && old(self).state != NodeState::Operational ==> final(self).outbox == old(self).outbox)
                &&& (beat && old(self).state != NodeState::Operational ==> final(self).outbox@.len() == old(self).outbox@.len() + 1)
            }),
    {
        self.heartbeats = self.heartbeats.wrapping_add(1);
        if self.heartbeats_timer > 0 {
            if self.heartbeats % self.heartbeats_timer == 0 {
                let code = self.state.heartbeat_code();
                let hb: Vec<u8> = vec![code];
                assert(hb@ =~= seq![code]);
                let cob: u16 = COB_FUNC_HEARTBEAT + self.node_id as u16;
                assert(cob <= 0x7FF);
                match create_frame(cob, hb.as_slice()) {
                    Ok(frame) => {
                        self.transmit(frame);
                        assert(self.outbox@.len() == old(self).outbox@.len() + 1);
                        assert(self.outbox@[old(self).outbox@.len() as int].data@ == seq![old(self).state.spec_heartbeat_code()]);
                        assert(self.outbox@[old(self).outbox@.len() as int].cob_id == 0x700 + old(self).node_id);
                    },
                    Err(_) => {},
                }
            }
        }
        if self.state == NodeState::Operational {
            let ghost mid = self.outbox@;
            self.event_count = self.event_count.wrapping_add(1);
            let c = self.event_count;
            self.save_rpdo_messages(false, NodeEvent::RegularTimerEvent, c);
            let _ = self.call_tpdo(false, NodeEvent::RegularTimerEvent, c);
            assert(forall|k: int| 0 <= k < mid.len() ==> self.outbox@[k] == #[trigger] mid[k]) by {
                assert forall|k: int| 0 <= k < mid.len() implies self.outbox@[k] == #[trigger] mid[k] by {
                    assert(self.outbox@.subrange(0, mid.len() as int)[k] == self.outbox@[k]);
                }
            }
        }
    }

    /// A frame for a receive PDO: stored until the PDO fires when its length
    /// is `ceil(total bit length / 8)`, answered with an emergency otherwise.
    /// Frames of no registered receive PDO are dropped.
    #[verifier::spinoff_prover]
    pub fn process_rpdo_frame(&mut self, frame: &CanFrame)
        requires
            old(self).wf(),
        ensures
            final(self).sdo_kept(old(self)),
            final(self).wf(),
            final(self).backup_od == old(self).backup_od,
            final(self).state == old(self).state,
            final(self).node_id == old(self).node_id,
            final(self).sdo_state == old(self).sdo_state,
            final(self).pdo_objects.cob_to_index == old(self).pdo_objects.cob_to_index,
            rpdo_post(*old(self), *final(self), *frame),
    {
        let cob_id = frame.cob_id;
        let slot = match self.pdo_objects.rpdo_slot(cob_id) {
            Ok(s) => s,
            Err(_) => return,
        };
        let total = self.pdo_objects.pdos[slot].total_length;
        if frame.data.len() != ((total as usize) + 7) / 8 {
            let bytes: Vec<u8> = vec![(cob_id % 0x100) as u8, (cob_id / 0x100) as u8];
            assert(bytes@ =~= seq![(cob_id % 0x100) as u8, (cob_id / 0x100) as u8]);
            let _ = self.trigger_emergency(EmergencyErrorCode::PdoNotProcessed, ErrorRegister::GenericError, bytes.as_slice());
            assert(seq![code_bytes(0x8210u16).0, code_bytes(0x8210u16).1, 0u8] + bytes@ =~= seq![0x10u8, 0x82u8, 0x00u8, (cob_id % 0x100) as u8, (cob_id / 0x100) as u8]);
            assert(seq![0u8, 0u8, 0u8] + bytes@ =~= seq![0x00u8, 0x00u8, 0x00u8, (cob_id % 0x100) as u8, (cob_id / 0x100) as u8]);
            return;
        }
        assert(self.pdo_objects.pdos@[slot as int].wf());
        assert(self.pdo_objects.pdos@[slot as int].length_consistent());
        let ghost before = self.pdo_objects;
        assert(before.wf());
        assert(forall|i: int| 0 <= i < 8 ==> #[trigger] before.pdos@[i].wf() && before.pdos@[i].length_consistent());
        self.pdo_objects.pdos[slot].set_cached_data(frame.data.as_slice());
        assert(self.pdo_objects.pdos@[slot as int].wf());
        assert(self.pdo_objects.pdos@[slot as int].length_consistent());
        assert(before == old(self).pdo_objects);
        assert(forall|i: int| 0 <= i < 8 && i != slot ==> self.pdo_objects.pdos@[i] == before.pdos@[i]);
        assert forall|i: int| 0 <= i < 8 implies #[trigger] self.pdo_objects.pdos@[i].wf() && self.pdo_objects.pdos@[i].length_consistent() by {
            if i != slot {
                assert(self.pdo_objects.pdos@[i] == old(self).pdo_objects.pdos@[i]);
                assert(old(self).pdo_objects.wf());
                assert(old(self).pdo_objects.pdos@[i].wf());
                assert(old(self).pdo_objects.pdos@[i].length_consistent());
            }
        }
        assert(forall|c: u16| #[trigger] cob_entries(self.pdo_objects.cob_to_index).contains_key(c) ==> {
            let s = cob_entries(self.pdo_objects.cob_to_index)[c];
            0 <= s < 8 && self.pdo_objects.pdos@[s as int].is_pdo_valid && self.pdo_objects.pdos@[s as int].cob_id == c
        });
    }
}

impl Node {
    /// Announces the node with the frame `0x234: 01 02 03 05`.
    pub fn init(&mut self) -> (r: Result<(), ErrorCode>)
        requires
            old(self).wf(),
        ensures
            final(self).wf(),
            final(self).backup_od == old(self).backup_od,
            final(self).object_directory == old(self).object_directory,
            final(self).keeps_counters(old(self)),
            r is Ok && final(self).outbox@.len() == old(self).outbox@.len() + 1,
    {
        let payload: Vec<u8> = vec![1, 2, 3, 5];
        match create_frame(0x234, payload.as_slice()) {
            Ok(f) => {
                self.transmit(f);
                Ok(())
            },
            Err(e) => Err(e),
        }
    }

    /// Handles one received frame by its function code (`cob_id & 0xFF80`):
    /// NMT (0x000), SYNC (0x080), receive PDOs (0x200..=0x500) and SDO
    /// requests (0x600); others are ignored.
    pub fn process_one_frame(&mut self, frame: &CanFrame)
        requires
            old(self).wf(),
            old(self).sdo_consistent(),
        ensures
            final(self).wf(),
            final(self).sdo_consistent(),
            final(self).backup_od == old(self).backup_od,
            final(self).node_id == old(self).node_id,
            ({
                let f = frame.cob_id / 0x80 * 0x80;
                &&& (!(f == 0x000 || f == 0x080 || (0x200 <= f <= 0x500) || f == 0x600) ==> final(self).outbox == old(self).outbox
                    && final(self).object_directory == old(self).object_directory && final(self).state == old(self).state)
                &&& (f == 0x000 ==> nmt_post(*old(self), *final(self), *frame))
                &&& (f == 0x080 && old(self).state == NodeState::Operational ==> final(self).sync_count == old(self).sync_count.wrapping_add(1))
                &&& (f == 0x080 && old(self).state == NodeState::Operational ==> ({
                    let c = old(self).sync_count.wrapping_add(1);
                    let mid = crate::pdo::rpdo_commit(old(self).object_directory@, old(self).pdo_objects.pdos@, 4, true, false, c);
                    &&& final(self).object_directory@ == mid
                    &&& (crate::pdo::tpdo_pass(mid, final(self).pdo_objects, old(self).outbox@, final(self).outbox@, true, false, c))
                }))
                &&& (f == 0x080 && old(self).state != NodeState::Operational ==> final(self).sync_count == old(self).sync_count
                    && final(self).outbox == old(self).outbox && final(self).object_directory == old(self).object_directory)
                &&& ((0x200 <= f <= 0x500) ==> rpdo_post(*old(self), *final(self), *frame))
                &&& (f == 0x600 ==> exists|r: Result<(), AbortCode>| crate::sdo_server::sdo_post(*old(self), *final(self), *frame, r))
            }),
    {
        let f = frame.cob_id & 0xFF80;
        let c = frame.cob_id;
        assert((c & 0xFF80) == c / 0x80 * 0x80) by (bit_vector);
        if f == 0x000 {
            self.process_nmt_frame(frame);
        } else if f == 0x080 {
            self.process_sync_frame();
        } else if 0x200 <= f && f <= 0x500 {
            self.process_rpdo_frame(frame);
        } else if f == 0x600 {
            let r = self.process_sdo_frame(frame);
            assert(crate::sdo_server::sdo_post(*old(self), *self, *frame, r));
        }
    }
}

} // verus!
