use vstd::prelude::*;
use crate::cmd_header::{
    SdoBlockDownloadInitiateCmd, SdoBlockUploadCmd, SdoDownloadInitiateCmd, SdoDownloadSegmentCmd,
    SdoEndBlockDownloadCmd, SdoInitBlockUploadCmd,
};
use crate::constant::{COB_FUNC_TRANSMIT_SDO, REG_PRODUCER_HEARTBEAT_TIME};
use crate::error::{AbortCode, ErrorCode};
use crate::node::Node;
use crate::object_directory::spec_variable;
use crate::util::{create_frame_with_padding, crc16_canopen_with_lut, crc16_spec, fit8, le_bytes, le_bytes_of, le_value, CanFrame};

verus! {

/// The phase of the SDO transfer in progress.
#[derive(PartialEq, Eq, Structural, Clone, Copy, Debug)]
pub enum SdoState {
    /// No transfer in progress.
    Normal,
    /// Segments are uploaded from the server to the client.
    SdoSegmentUpload,
    /// Segments are downloaded from the client to the server.
    SdoSegmentDownload,
    /// Blocks are downloaded from the client.
    DownloadSdoBlock,
    /// The block download waits for its end frame.
    EndSdoBlockDownload,
    /// The block upload waits for the client's start.
    StartSdoBlockUpload,
    /// The block upload waits for the client's confirmation.
    ConfirmUploadSdoBlock,
}

/// Segment `k` of a value sent in seven-byte segments.
pub open spec fn segment(v: Seq<u8>, k: nat) -> Seq<u8> {
    v.subrange(
        7 * k as int,
        if 7 * k + 7 <= v.len() {
            (7 * k + 7) as int
        } else {
            v.len() as int
        },
    )
}

/// The number of seven-byte segments of a value of length `len`.
pub open spec fn segment_count(len: nat) -> nat {
    (len + 6) / 7
}

/// The first `m` segments of `v`, joined.
pub open spec fn joined_segments(v: Seq<u8>, m: nat) -> Seq<u8>
    decreases m,
{
    if m == 0 {
        Seq::empty()
    } else {
        joined_segments(v, (m - 1) as nat) + segment(v, (m - 1) as nat)
    }
}

proof fn lemma_joined_prefix(v: Seq<u8>, m: nat)
    requires
        7 * m <= v.len() + 6,
        m <= segment_count(v.len()),
    ensures
        joined_segments(v, m) == v.subrange(0, if 7 * m <= v.len() { 7 * m as int } else { v.len() as int }),
    decreases m,
{
    if m > 0 {
        lemma_joined_prefix(v, (m - 1) as nat);
        assert(joined_segments(v, m) =~= v.subrange(0, if 7 * m <= v.len() { 7 * m as int } else { v.len() as int }));
    } else {
        assert(joined_segments(v, 0) =~= v.subrange(0, 0));
    }
}

/// A value sent in seven-byte segments is the concatenation of its
/// `ceil(len / 7)` segments.
pub proof fn lemma_segments_cover(v: Seq<u8>)
    ensures
        joined_segments(v, segment_count(v.len())) == v,
{
    lemma_joined_prefix(v, segment_count(v.len()));
    assert(v.subrange(0, v.len() as int) =~= v);
}

/// The SDO reply payload `cmd, index (LE), sub-index, data`, cut or padded
/// to eight bytes.
pub open spec fn sdo_payload(cmd: u8, index: u16, sub_index: u8, data: Seq<u8>) -> Seq<u8> {
    fit8(seq![cmd, (index % 0x100) as u8, (index / 0x100) as u8, sub_index] + data)
}

/// What a plain write of `data` to `(index, sub_index)` comes to: the
/// lookup's abort code, or the write check's, or success.
pub open spec fn write_outcome(od: crate::object_directory::DirectoryView, index: u16, sub_index: u8, data: Seq<u8>) -> Result<(), AbortCode> {
    match spec_variable(od, index, sub_index) {
        Ok(v) => match crate::object_directory::write_check(v, data.len(), false) {
            None => Ok(()),
            Some(c) => Err(c),
        },
        Err(c) => Err(c),
    }
}

/// A PDO mapping table (`0x1600..=0x17FF`, `0x1A00..=0x1BFF`).
pub open spec fn is_mapping_table(index: u16) -> bool {
    (0x1600 <= index <= 0x17FF) || (0x1A00 <= index <= 0x1BFF)
}

/// The abort code that a library error stands for on the bus.
pub open spec fn abort_of(e: ErrorCode) -> AbortCode {
    match e {
        ErrorCode::AbortCodeWrapper { abort_code, .. } => abort_code,
        _ => AbortCode::GeneralError,
    }
}

fn abort_code_of(e: &ErrorCode) -> (r: AbortCode)
    ensures
        r == abort_of(*e),
{
    match e {
        ErrorCode::AbortCodeWrapper { abort_code, .. } => *abort_code,
        _ => AbortCode::GeneralError,
    }
}

fn make_sdo_payload(cmd: u8, index: u16, sub_index: u8, data: &[u8]) -> (r: Vec<u8>)
    ensures
        r@ == sdo_payload(cmd, index, sub_index, data@),
{
    let mut v: Vec<u8> = vec![cmd, (index % 0x100) as u8, (index / 0x100) as u8, sub_index];
    let ghost head = v@;
    let mut i: usize = 0;
    while i < data.len()
        invariant
            i <= data@.len(),
            v@ == head + data@.subrange(0, i as int),
        decreases data@.len() - i,
    {
        v.push(data[i]);
        assert(v@ =~= head + data@.subrange(0, i + 1));
        i = i + 1;
    }
    assert(data@.subrange(0, i as int) =~= data@);
    assert(head =~= seq![cmd, (index % 0x100) as u8, (index / 0x100) as u8, sub_index]);
    crate::util::fit_to_8_pub(v.as_slice())
}

fn slice_of(v: &Vec<u8>, from: usize, to: usize) -> (r: Vec<u8>)
    requires
        from <= to <= v@.len(),
    ensures
        r@ == v@.subrange(from as int, to as int),
{
    let mut r: Vec<u8> = Vec::new();
    let mut i: usize = from;
    while i < to
        invariant
            from <= i <= to <= v@.len(),
            r@ == v@.subrange(from as int, i as int),
        decreases to - i,
    {
        r.push(v[i]);
        i = i + 1;
    }
    r
}

impl Node {
    /// The SDO buffers are held exactly while a transfer is in progress; a
    /// segmented upload is part way through its buffer at a segment border.
    pub open spec fn sdo_consistent(&self) -> bool {
        &&& (self.sdo_state == SdoState::Normal <==> (self.read_buf is None && self.write_buf is None))
        &&& (self.sdo_state == SdoState::SdoSegmentUpload ==> (self.read_buf matches Some(b) && self.read_buf_index < b@.len() && self.read_buf_index % 7 == 0 && self.write_buf is None))
        &&& ((self.sdo_state == SdoState::StartSdoBlockUpload || self.sdo_state == SdoState::ConfirmUploadSdoBlock) ==> (self.read_buf matches Some(b) && b@.len() > 0 && self.write_buf is None))
        &&& ((self.sdo_state == SdoState::SdoSegmentDownload || self.sdo_state == SdoState::DownloadSdoBlock || self.sdo_state == SdoState::EndSdoBlockDownload) ==> self.write_buf is Some && self.read_buf is None)
    }

    /// Writes a value from an SDO download, with the protocol's checks: a
    /// PDO mapping entry must name an existing, mappable object (readable
    /// for a transmit PDO); a PDO parameter re-derives its slot; the producer
    /// heartbeat time sets the heartbeat period.
    pub fn set_value_with_check(&mut self, index: u16, sub_index: u8, data: &[u8]) -> (r: Result<(), AbortCode>)
        requires
            old(self).wf(),
        ensures
            final(self).wf(),
            final(self).backup_od == old(self).backup_od,
            final(self).outbox == old(self).outbox,
            final(self).state == old(self).state,
            final(self).node_id == old(self).node_id,
            final(self).sdo_state == old(self).sdo_state,
            final(self).read_buf == old(self).read_buf,
            final(self).write_buf == old(self).write_buf,
            final(self).read_buf_index == old(self).read_buf_index,
            index == REG_PRODUCER_HEARTBEAT_TIME && r is Ok ==> final(self).heartbeats_timer as nat == crate::pdo::uint_of(data@, 2),
            index != REG_PRODUCER_HEARTBEAT_TIME ==> final(self).heartbeats_timer == old(self).heartbeats_timer,
            !(0x1400 <= index <= 0x1BFF) ==> r == write_outcome(old(self).object_directory@, index, sub_index, data@),
            r is Ok ==> write_outcome(old(self).object_directory@, index, sub_index, data@) is Ok,
            r is Ok ==> final(self).object_directory@ == crate::object_directory::od_with_value(
                crate::object_directory::od_after_access(old(self).object_directory@, index, sub_index),
                index,
                sub_index,
                data@,
            ),
            r == Err::<(), AbortCode>(AbortCode::ObjectCannotBeMappedToPDO) && is_mapping_table(index) && 1 <= sub_index <= 64
                && !(data@.len() == 4 && (spec_variable(old(self).object_directory@, (data@[3] as u16 * 0x100 + data@[2] as u16) as u16, data@[1]) matches Ok(v)
                    && v.pdo_mappable && !(index >= 0x1A00 && !v.access_type.read_access)))
                ==> final(self).object_directory == old(self).object_directory && final(self).pdo_objects == old(self).pdo_objects,
            !(0x1400 <= index <= 0x1BFF) && r is Err ==> final(self).object_directory@ == crate::object_directory::od_after_access(old(self).object_directory@, index, sub_index)
                && final(self).pdo_objects == old(self).pdo_objects,
            is_mapping_table(index) && 1 <= sub_index <= 64 ==> ({
                let di = (data@[3] as u16 * 0x100 + data@[2] as u16) as u16;
                let dsi = data@[1];
                &&& (data@.len() != 4 ==> r == Err::<(), AbortCode>(AbortCode::ObjectCannotBeMappedToPDO))
                &&& (data@.len() == 4 ==> match spec_variable(old(self).object_directory@, di, dsi) {
                    Err(_) => r == Err::<(), AbortCode>(AbortCode::ObjectCannotBeMappedToPDO),
                    Ok(v) => !v.pdo_mappable || (index >= 0x1A00 && !v.access_type.read_access) ==> r == Err::<(), AbortCode>(AbortCode::ObjectCannotBeMappedToPDO),
                })
            }),
            r is Ok ==> (crate::pdo::pdo_slot(index) matches Some(s) ==> ({
                let p = final(self).pdo_objects.pdos@[s];
                &&& p.total_length as nat == crate::pdo::mapped_bits(p.mappings@, p.num_of_map_objs as nat)
                &&& (p.is_pdo_valid <==> (
                    crate::pdo::cob_entries(final(self).pdo_objects.cob_to_index).contains_key(p.cob_id)
                        && crate::pdo::cob_entries(final(self).pdo_objects.cob_to_index)[p.cob_id] == s))
            })),
    {
        let mapping_table = (0x1600 <= index && index <= 0x17FF) || (0x1A00 <= index && index <= 0x1BFF);
        if mapping_table && sub_index > 0 && sub_index <= crate::pdo::MAX_PDO_MAPPING_LENGTH {
            if data.len() != 4 {
                return Err(AbortCode::ObjectCannotBeMappedToPDO);
            }
            let di = (data[3] as u16) * 0x100 + (data[2] as u16);
            let d_si = data[1];
            let var = match self.object_directory.peek_variable(di, d_si) {
                Ok(v) => v,
                Err(_) => return Err(AbortCode::ObjectCannotBeMappedToPDO),
            };
            if !var.pdo_mappable || (index >= 0x1A00 && !var.access_type.is_readable()) {
                return Err(AbortCode::ObjectCannotBeMappedToPDO);
            }
        }
        let var = match self.object_directory.set_value(index, sub_index, data, false) {
            Ok(v) => v,
            Err(e) => return Err(abort_code_of(&e)),
        };
        if 0x1400 <= index && index <= 0x1BFF {
            let mut written = var;
            written.index = index;
            written.sub_index = sub_index;
            match self.update(&written) {
                Ok(()) => Ok(()),
                Err(e) => Err(abort_code_of(&e)),
            }
        } else if index == REG_PRODUCER_HEARTBEAT_TIME {
            proof {
                crate::pdo::lemma_uint_fits(data@);
            }
            let t: u16 = var.default_value.to::<u16>();
            self.heartbeats_timer = t as u32;
            Ok(())
        } else {
            Ok(())
        }
    }
}

/// The frame conditions of an SDO handler: what it leaves alone.
pub open spec fn sdo_frame_kept(n: &Node, o: &Node) -> bool {
    &&& n.wf()
    &&& n.backup_od == o.backup_od
    &&& n.state == o.state
    &&& n.node_id == o.node_id
    &&& n.outbox@.len() >= o.outbox@.len()
    &&& forall|k: int| 0 <= k < o.outbox@.len() ==> #[trigger] n.outbox@[k] == o.outbox@[k]
}

/// The command byte of an expedited upload reply carrying `len` bytes.
pub open spec fn expedited_upload_cmd(len: nat) -> u8 {
    (0x43 | ((((4 - len) as u8) & 3) << 2u8)) as u8
}

impl Node {
    fn read_variable_bytes(&mut self, index: u16, sub_index: u8) -> (r: Result<Vec<u8>, AbortCode>)
        requires
            old(self).wf(),
        ensures
            final(self).wf(),
            final(self).keeps_counters(old(self)),
            final(self).backup_od == old(self).backup_od,
            final(self).outbox == old(self).outbox,
            final(self).object_directory@ == crate::object_directory::od_after_access(old(self).object_directory@, index, sub_index),
            final(self).pdo_objects == old(self).pdo_objects,
            match spec_variable(old(self).object_directory@, index, sub_index) {
                Err(c) => r == Err::<Vec<u8>, AbortCode>(c),
                Ok(v) => if v.access_type.read_access {
                    r matches Ok(b) && b@ == v.value
                } else {
                    r == Err::<Vec<u8>, AbortCode>(AbortCode::AttemptToReadWriteOnlyObject)
                },
            },
    {
        match self.object_directory.get_variable(index, sub_index) {
            Ok(var) => Ok(crate::util::copy_bytes(var.default_value.as_slice())),
            Err(e) => Err(abort_code_of(&e)),
        }
    }

    /// An upload request: values of up to four bytes go back expedited;
    /// longer ones start a segmented upload, answered with their size.
    pub fn initiate_upload(&mut self, index: u16, sub_index: u8) -> (r: Result<Vec<u8>, AbortCode>)
        requires
            old(self).wf(),
            old(self).sdo_state == SdoState::Normal,
            old(self).sdo_consistent(),
        ensures
            sdo_frame_kept(final(self), old(self)),
            final(self).object_directory@ == crate::object_directory::od_after_access(old(self).object_directory@, index, sub_index),
            final(self).pdo_objects == old(self).pdo_objects,
            final(self).outbox == old(self).outbox,
            r is Ok ==> final(self).sdo_consistent(),
            match spec_variable(old(self).object_directory@, index, sub_index) {
                Err(c) => r == Err::<Vec<u8>, AbortCode>(c),
                Ok(v) => if !v.access_type.read_access {
                    r == Err::<Vec<u8>, AbortCode>(AbortCode::AttemptToReadWriteOnlyObject)
                } else if v.value.len() == 0 {
                    r == Err::<Vec<u8>, AbortCode>(AbortCode::GeneralError)
                } else if v.value.len() <= 4 {
                    (r matches Ok(p) && p@ == sdo_payload(expedited_upload_cmd(v.value.len()), index, sub_index, v.value))
                        && final(self).sdo_state == SdoState::Normal
                } else {
                    (r matches Ok(p) && p@ == sdo_payload(0x41, index, sub_index, le_bytes(v.value.len(), 4)))
                        && final(self).sdo_state == SdoState::SdoSegmentUpload
                        && (final(self).read_buf matches Some(b) && b@ == v.value)
                        && final(self).read_buf_index == 0 && final(self).next_read_toggle == 0
                        && final(self).reserved_index == index && final(self).reserved_sub_index == sub_index
                },
            },
    {
        let data = match self.read_variable_bytes(index, sub_index) {
            Ok(d) => d,
            Err(c) => return Err(c),
        };
        if data.len() == 0 {
            return Err(AbortCode::GeneralError);
        }
        if data.len() <= 4 {
            let len = data.len() as u8;
            let cmd = 0x43 | (((4 - len) & 0x3) << 2u8);
            return Ok(make_sdo_payload(cmd, index, sub_index, data.as_slice()));
        }
        let len_bytes = le_bytes_of(data.len() as u64, 4);
        self.read_buf = Some(data);
        self.read_buf_index = 0;
        self.next_read_toggle = 0;
        self.reserved_index = index;
        self.reserved_sub_index = sub_index;
        self.sdo_state = SdoState::SdoSegmentUpload;
        Ok(make_sdo_payload(0x41, index, sub_index, len_bytes.as_slice()))
    }

    /// An upload segment request: the next seven-byte segment of the value,
    /// or the last one, which ends the transfer.
    pub fn upload_segment(&mut self, cmd: u8) -> (r: Result<Vec<u8>, AbortCode>)
        requires
            old(self).wf(),
            old(self).sdo_state == SdoState::SdoSegmentUpload,
            old(self).sdo_consistent(),
        ensures
            sdo_frame_kept(final(self), old(self)),
            final(self).outbox == old(self).outbox,
            r is Ok ==> final(self).sdo_consistent(),
            cmd >> 5u8 != 3 ==> r == Err::<Vec<u8>, AbortCode>(AbortCode::GeneralError),
            cmd >> 5u8 == 3 && (cmd >> 4u8) & 1 != old(self).next_read_toggle ==> r == Err::<Vec<u8>, AbortCode>(AbortCode::ToggleBitNotAlternated),
            ({
                let b = old(self).read_buf->Some_0@;
                let i = old(self).read_buf_index;
                let t = (cmd >> 4u8) & 1;
                let rem = b.len() - i;
                cmd >> 5u8 == 3 && t == old(self).next_read_toggle ==> (r matches Ok(p)
                    && p@.len() == 1 + segment(b, (i / 7) as nat).len()
                    && p@.subrange(1, p@.len() as int) == segment(b, (i / 7) as nat)
                    && (rem > 7 ==> p@[0] == t << 4u8 && final(self).sdo_state == SdoState::SdoSegmentUpload
                        && final(self).read_buf == old(self).read_buf && final(self).read_buf_index == i + 7)
                    && (rem <= 7 ==> p@[0] == (1 | (t << 4u8) | (((7 - rem) as u8) << 1u8)) as u8 && final(self).sdo_state == SdoState::Normal
                        && final(self).read_buf is None)
                    && final(self).next_read_toggle == 1 - t)
            }),
    {
        if cmd >> 5u8 != 3 {
            return Err(AbortCode::GeneralError);
        }
        let toggle = (cmd >> 4u8) & 1;
        if toggle != self.next_read_toggle {
            return Err(AbortCode::ToggleBitNotAlternated);
        }
        let old_toggle = self.next_read_toggle;
        proof {
            if toggle == old_toggle {
                assert(toggle <= 1 ==> (toggle ^ 1u8) == 1 - toggle) by (bit_vector);
                assert(((cmd >> 4u8) & 1) <= 1) by (bit_vector);
            }
        }
        self.next_read_toggle = self.next_read_toggle ^ 1;
        let buf = match &self.read_buf {
            Some(b) => b,
            None => return Err(AbortCode::GeneralError),
        };
        let i = self.read_buf_index;
        let n = buf.len();
        let rem = n - i;
        let ghost bv = buf@;
        if rem > 7 {
            let seg = slice_of(buf, i, i + 7);
            let mut p: Vec<u8> = vec![toggle << 4u8];
            let mut k: usize = 0;
            while k < 7
                invariant
                    k <= 7,
                    seg@.len() == 7,
                    p@.len() == 1 + k,
                    p@[0] == toggle << 4u8,
                    p@.subrange(1, 1 + k as int) == seg@.subrange(0, k as int),
                decreases 7 - k,
            {
                p.push(seg[k]);
                assert(p@.subrange(1, 2 + k as int) =~= seg@.subrange(0, k + 1));
                k = k + 1;
            }
            self.read_buf_index = i + 7;
            assert(seg@.subrange(0, 7) =~= seg@);
            assert(segment(bv, (i / 7) as nat) =~= seg@);
            Ok(p)
        } else {
            let seg = slice_of(buf, i, n);
            let nn = (7 - rem) as u8;
            let first = 0x01 | (toggle << 4u8) | (nn << 1u8);
            let mut p: Vec<u8> = vec![first];
            let mut k: usize = 0;
            while k < seg.len()
                invariant
                    k <= seg@.len(),
                    p@.len() == 1 + k,
                    p@[0] == first,
                    p@.subrange(1, 1 + k as int) == seg@.subrange(0, k as int),
                decreases seg@.len() - k,
            {
                p.push(seg[k]);
                assert(p@.subrange(1, 2 + k as int) =~= seg@.subrange(0, k + 1));
                k = k + 1;
            }
            assert(seg@.subrange(0, k as int) =~= seg@);
            assert(segment(bv, (i / 7) as nat) =~= seg@);
            self.read_buf = None;
            self.read_buf_index = 0;
            self.sdo_state = SdoState::Normal;
            Ok(p)
        }
    }
}

impl Node {
    /// A download request: expedited (`e` and `s` set) writes the data at
    /// once; otherwise a segmented download starts, with its declared size.
    pub fn initiate_download(&mut self, index: u16, sub_index: u8, req: &Vec<u8>) -> (r: Result<Vec<u8>, AbortCode>)
        requires
            old(self).wf(),
            old(self).sdo_state == SdoState::Normal,
            old(self).sdo_consistent(),
            req@.len() == 8,
        ensures
            sdo_frame_kept(final(self), old(self)),
            final(self).outbox == old(self).outbox,
            r is Ok ==> final(self).sdo_consistent(),
            r matches Ok(p) ==> p@ == sdo_payload(0x60, index, sub_index, seq![0u8, 0u8, 0u8, 0u8]),
            (req@[0] >> 1u8) & 1 == 1 && req@[0] & 1 == 1 && r is Ok ==> final(self).sdo_state == SdoState::Normal,
            (req@[0] >> 1u8) & 1 == 1 && req@[0] & 1 == 1 && r is Ok ==> (crate::pdo::pdo_slot(index) matches Some(s) ==> ({
                let p = final(self).pdo_objects.pdos@[s];
                let m = crate::pdo::cob_entries(final(self).pdo_objects.cob_to_index);
                &&& p.total_length as nat == crate::pdo::mapped_bits(p.mappings@, p.num_of_map_objs as nat)
                &&& (p.is_pdo_valid <==> (m.contains_key(p.cob_id) && m[p.cob_id] == s))
            })),
            !((req@[0] >> 1u8) & 1 == 1 && req@[0] & 1 == 1) ==> r is Ok && final(self).sdo_state == SdoState::SdoSegmentDownload
                && final(self).reserved_index == index && final(self).reserved_sub_index == sub_index,
            ({
                let data = req@.subrange(4, 8 - ((req@[0] >> 2u8) & 3) as int);
                (req@[0] >> 1u8) & 1 == 1 && req@[0] & 1 == 1 && !(0x1400 <= index <= 0x1BFF) ==> {
                    &&& r.is_ok() == (write_outcome(old(self).object_directory@, index, sub_index, data) is Ok)
                    &&& (r is Err ==> r == Err::<Vec<u8>, AbortCode>(write_outcome(old(self).object_directory@, index, sub_index, data)->Err_0))
                    &&& (r is Ok ==> final(self).object_directory@ == crate::object_directory::od_with_value(
                        crate::object_directory::od_after_access(old(self).object_directory@, index, sub_index), index, sub_index, data))
                    &&& (r is Ok && index == REG_PRODUCER_HEARTBEAT_TIME ==> final(self).heartbeats_timer as nat == crate::pdo::uint_of(data, 2))
                    &&& (r is Err ==> final(self).object_directory@ == crate::object_directory::od_after_access(old(self).object_directory@, index, sub_index))
                }
            }),
    {
        let cmd = SdoDownloadInitiateCmd::from(req[0]);
        let zeros: Vec<u8> = vec![0, 0, 0, 0];
        assert(zeros@ =~= seq![0u8, 0u8, 0u8, 0u8]);
        if cmd.e() && cmd.s() {
            let end = 8 - cmd.n() as usize;
            let data = slice_of(req, 4, end);
            match self.set_value_with_check(index, sub_index, data.as_slice()) {
                Ok(()) => {},
                Err(c) => return Err(c),
            }
            return Ok(make_sdo_payload(0x60, index, sub_index, zeros.as_slice()));
        }
        self.write_data_size = if cmd.s() {
            let size = slice_of(req, 4, 8);
            crate::util::le_u64(size.as_slice()) as usize
        } else {
            0
        };
        self.write_buf = Some(Vec::new());
        self.reserved_index = index;
        self.reserved_sub_index = sub_index;
        self.sdo_state = SdoState::SdoSegmentDownload;
        Ok(make_sdo_payload(0x60, index, sub_index, zeros.as_slice()))
    }

    /// A download segment: its data joins the buffer; the last one is
    /// written to the dictionary and ends the transfer.
    pub fn download_segment(&mut self, req: &Vec<u8>) -> (r: Result<Vec<u8>, AbortCode>)
        requires
            old(self).wf(),
            old(self).sdo_state == SdoState::SdoSegmentDownload,
            old(self).sdo_consistent(),
            req@.len() == 8,
        ensures
            sdo_frame_kept(final(self), old(self)),
            final(self).outbox == old(self).outbox,
            r is Ok ==> final(self).sdo_consistent(),
            req@[0] >> 5u8 != 0 ==> r == Err::<Vec<u8>, AbortCode>(AbortCode::GeneralError),
            r matches Ok(p) ==> p@ == seq![(0x20 | (((req@[0] >> 4u8) & 1) << 4u8)) as u8],
            r is Ok && req@[0] & 1 == 0 ==> final(self).sdo_state == SdoState::SdoSegmentDownload,
            req@[0] >> 5u8 == 0 && req@[0] & 1 == 0 ==> r is Ok
                && (final(self).write_buf matches Some(b) && b@ == old(self).write_buf->Some_0@ + req@.subrange(1, 8)),
            ({
                let data = old(self).write_buf->Some_0@ + req@.subrange(1, 8 - ((req@[0] >> 1u8) & 7) as int);
                let (i, si) = (old(self).reserved_index, old(self).reserved_sub_index);
                req@[0] >> 5u8 == 0 && req@[0] & 1 == 1 ==> {
                    &&& (old(self).write_data_size > 0 && old(self).write_data_size != data.len() ==> r == Err::<Vec<u8>, AbortCode>(AbortCode::GeneralError))
                    &&& ((old(self).write_data_size == 0 || old(self).write_data_size == data.len()) && !(0x1400 <= i <= 0x1BFF) ==>
                        r.is_ok() == (write_outcome(old(self).object_directory@, i, si, data) is Ok))
                }
            }),
            r is Ok && req@[0] & 1 == 1 ==> final(self).sdo_state == SdoState::Normal,
    {
        let cmd = SdoDownloadSegmentCmd::from(req[0]);
        if cmd.ccs() != 0 {
            return Err(AbortCode::GeneralError);
        }
        let mut buf = match &self.write_buf {
            Some(b) => crate::util::copy_bytes(b.as_slice()),
            None => return Err(AbortCode::GeneralError),
        };
        let resp_cmd = 0x20 | (cmd.t() << 4u8);
        let resp: Vec<u8> = vec![resp_cmd];
        assert(resp@ =~= seq![resp_cmd]);
        if !cmd.c() {
            let part = slice_of(req, 1, 8);
            append_bytes(&mut buf, &part);
            self.write_buf = Some(buf);
            Ok(resp)
        } else {
            let end = 8 - cmd.n() as usize;
            let part = slice_of(req, 1, end);
            append_bytes(&mut buf, &part);
            if self.write_data_size > 0 && self.write_data_size != buf.len() {
                return Err(AbortCode::GeneralError);
            }
            let (index, sub_index) = (self.reserved_index, self.reserved_sub_index);
            match self.set_value_with_check(index, sub_index, buf.as_slice()) {
                Ok(()) => {},
                Err(c) => return Err(c),
            }
            self.write_buf = None;
            self.sdo_state = SdoState::Normal;
            Ok(resp)
        }
    }

    /// A block download request: answered with CRC support and the block
    /// size; the download waits for its segments.
    pub fn init_block_download(&mut self, index: u16, sub_index: u8, req: &Vec<u8>) -> (r: Result<Vec<u8>, AbortCode>)
        requires
            old(self).wf(),
            old(self).sdo_state == SdoState::Normal,
            old(self).sdo_consistent(),
            req@.len() == 8,
        ensures
            sdo_frame_kept(final(self), old(self)),
            final(self).outbox == old(self).outbox,
            final(self).sdo_consistent(),
            r matches Ok(p) && p@ == sdo_payload(
                (0xA0 | ((if old(self).crc_enabled { 1u8 } else { 0u8 }) << 2u8)) as u8,
                index,
                sub_index,
                seq![old(self).block_size, 0u8, 0u8, 0u8],
            ),
            final(self).sdo_state == SdoState::DownloadSdoBlock,
    {
        let cmd = SdoBlockDownloadInitiateCmd::from(req[0]);
        self.need_crc = cmd.cc();
        self.write_data_size = if cmd.s() {
            let size = slice_of(req, 4, 8);
            crate::util::le_u64(size.as_slice()) as usize
        } else {
            0
        };
        self.write_buf = Some(Vec::new());
        self.current_seq_number = 0;
        self.reserved_index = index;
        self.reserved_sub_index = sub_index;
        let crc_bit: u8 = if self.crc_enabled { 1 } else { 0 };
        let resp_cmd = 0xA0 | (crc_bit << 2u8);
        let payload: Vec<u8> = vec![self.block_size, 0, 0, 0];
        assert(payload@ =~= seq![old(self).block_size, 0u8, 0u8, 0u8]);
        self.sdo_state = SdoState::DownloadSdoBlock;
        Ok(make_sdo_payload(resp_cmd, index, sub_index, payload.as_slice()))
    }

    /// A block download segment: its sequence number must be the next one;
    /// the data joins the buffer; the last segment of the block is
    /// acknowledged with `(0xA2, seqno, block size)`.
    pub fn block_download(&mut self, req: &Vec<u8>) -> (r: Result<Vec<u8>, AbortCode>)
        requires
            old(self).wf(),
            old(self).sdo_state == SdoState::DownloadSdoBlock,
            old(self).sdo_consistent(),
            req@.len() == 8,
        ensures
            sdo_frame_kept(final(self), old(self)),
            final(self).outbox == old(self).outbox,
            r is Ok ==> final(self).sdo_consistent(),
            req@[0] & 0x7F != old(self).current_seq_number.wrapping_add(1) ==> r == Err::<Vec<u8>, AbortCode>(AbortCode::InvalidSequenceNumber),
            r is Ok && req@[0] >> 7u8 == 1 ==> r->Ok_0@ == seq![0xA2u8, final(self).current_seq_number, final(self).block_size]
                && final(self).sdo_state == SdoState::EndSdoBlockDownload,
            r is Ok && req@[0] >> 7u8 == 0 ==> r->Ok_0@.len() == 0 && final(self).sdo_state == SdoState::DownloadSdoBlock,
            req@[0] & 0x7F == old(self).current_seq_number.wrapping_add(1) ==> r is Ok
                && (final(self).write_buf matches Some(b) && b@ == old(self).write_buf->Some_0@ + req@.subrange(1, 8)),
    {
        let seqno = req[0] & 0x7F;
        self.current_seq_number = self.current_seq_number.wrapping_add(1);
        if seqno != self.current_seq_number {
            return Err(AbortCode::InvalidSequenceNumber);
        }
        let mut buf = match &self.write_buf {
            Some(b) => crate::util::copy_bytes(b.as_slice()),
            None => return Err(AbortCode::GeneralError),
        };
        let part = slice_of(req, 1, 8);
        append_bytes(&mut buf, &part);
        self.write_buf = Some(buf);
        if req[0] >> 7u8 == 1 {
            self.sdo_state = SdoState::EndSdoBlockDownload;
            let resp: Vec<u8> = vec![0xA2, self.current_seq_number, self.block_size];
            assert(resp@ =~= seq![0xA2u8, self.current_seq_number, self.block_size]);
            Ok(resp)
        } else {
            Ok(Vec::new())
        }
    }

    /// The end of a block download: `n` must be the unused bytes of the
    /// last segment; the declared size (or the data less `n` bytes) is
    /// checked against the CRC when the client sends one, then written.
    pub fn end_block_download(&mut self, req: &Vec<u8>) -> (r: Result<Vec<u8>, AbortCode>)
        requires
            old(self).wf(),
            old(self).sdo_state == SdoState::EndSdoBlockDownload,
            old(self).sdo_consistent(),
            req@.len() == 8,
        ensures
            sdo_frame_kept(final(self), old(self)),
            final(self).outbox == old(self).outbox,
            r is Ok ==> final(self).sdo_consistent() && final(self).sdo_state == SdoState::Normal,
            r matches Ok(p) ==> p@ == seq![0xA1u8],
            ((req@[0] >> 2u8) & 7) as int != 7 - old(self).write_data_size as int % 7 ==> r == Err::<Vec<u8>, AbortCode>(AbortCode::GeneralError),
            ({
                let buf = old(self).write_buf->Some_0@;
                let n = ((req@[0] >> 2u8) & 7) as int;
                let size = old(self).write_data_size as int;
                let len = if size > 0 { size } else { buf.len() - n };
                let data = buf.subrange(0, len);
                let crc = (req@[1] as int + req@[2] as int * 0x100) as u16;
                let (i, si) = (old(self).reserved_index, old(self).reserved_sub_index);
                n == 7 - size % 7 && 0 <= len <= buf.len() ==> {
                    &&& (old(self).need_crc && crc16_spec(data) != crc ==> r == Err::<Vec<u8>, AbortCode>(AbortCode::CRCError))
                    &&& ((!old(self).need_crc || crc16_spec(data) == crc) && !(0x1400 <= i <= 0x1BFF) ==>
                        r.is_ok() == (write_outcome(old(self).object_directory@, i, si, data) is Ok))
                }
            }),
    {
        let cmd = SdoEndBlockDownloadCmd::from(req[0]);
        if cmd.n() as usize != 7 - self.write_data_size % 7 {
            return Err(AbortCode::GeneralError);
        }
        let buf = match &self.write_buf {
            Some(b) => crate::util::copy_bytes(b.as_slice()),
            None => return Err(AbortCode::GeneralError),
        };
        let len = if self.write_data_size > 0 {
            if self.write_data_size > buf.len() {
                return Err(AbortCode::GeneralError);
            }
            self.write_data_size
        } else {
            if (cmd.n() as usize) > buf.len() {
                return Err(AbortCode::GeneralError);
            }
            buf.len() - cmd.n() as usize
        };
        let data = slice_of(&buf, 0, len);
        if self.need_crc {
            let crc = (req[1] as u16) + (req[2] as u16) * 0x100;
            if crc16_canopen_with_lut(data.as_slice()) != crc {
                return Err(AbortCode::CRCError);
            }
        }
        let (index, sub_index) = (self.reserved_index, self.reserved_sub_index);
        match self.set_value_with_check(index, sub_index, data.as_slice()) {
            Ok(()) => {},
            Err(c) => return Err(c),
        }
        self.write_buf = None;
        self.sdo_state = SdoState::Normal;
        let resp: Vec<u8> = vec![0xA1];
        assert(resp@ =~= seq![0xA1u8]);
        Ok(resp)
    }

    /// A block upload request: the block size must be below 0x80; answered
    /// with CRC support and the value's size.
    pub fn init_block_upload(&mut self, index: u16, sub_index: u8, req: &Vec<u8>) -> (r: Result<Vec<u8>, AbortCode>)
        requires
            old(self).wf(),
            old(self).sdo_state == SdoState::Normal,
            old(self).sdo_consistent(),
            req@.len() == 8,
        ensures
            sdo_frame_kept(final(self), old(self)),
            final(self).outbox == old(self).outbox,
            r is Ok ==> final(self).sdo_consistent() && final(self).sdo_state == SdoState::StartSdoBlockUpload,
            !(req@[0] >> 5u8 == 5 && req@[0] & 3 == 0) ==> r == Err::<Vec<u8>, AbortCode>(AbortCode::GeneralError),
            req@[0] >> 5u8 == 5 && req@[0] & 3 == 0 && req@[4] >= 0x80 ==> r == Err::<Vec<u8>, AbortCode>(AbortCode::InvalidBlockSize),
            req@[0] >> 5u8 == 5 && req@[0] & 3 == 0 && req@[4] < 0x80 ==> match spec_variable(old(self).object_directory@, index, sub_index) {
                Err(c) => r == Err::<Vec<u8>, AbortCode>(c),
                Ok(v) => if !v.access_type.read_access {
                    r == Err::<Vec<u8>, AbortCode>(AbortCode::AttemptToReadWriteOnlyObject)
                } else if v.value.len() == 0 || v.value.len() > 0xFFFF_FFFF {
                    r == Err::<Vec<u8>, AbortCode>(AbortCode::GeneralError)
                } else {
                    r is Ok && (final(self).read_buf matches Some(b) && b@ == v.value) && final(self).block_size == req@[4]
                        && final(self).need_crc == ((req@[0] >> 2u8) & 1 == 1)
                },
            },
            r matches Ok(p) ==> (final(self).read_buf matches Some(b) && p@ == sdo_payload(
                (0xC2 | ((if old(self).crc_enabled { 1u8 } else { 0u8 }) << 2u8)) as u8,
                index,
                sub_index,
                le_bytes(b@.len(), 4),
            )),
    {
        let cmd = SdoInitBlockUploadCmd::from(req[0]);
        let blk_size = req[4];
        if cmd.ccs() != 5 || cmd.cs() != 0 {
            return Err(AbortCode::GeneralError);
        }
        if blk_size >= 0x80 {
            return Err(AbortCode::InvalidBlockSize);
        }
        self.need_crc = cmd.cc();
        self.block_size = blk_size;
        self.reserved_index = index;
        self.reserved_sub_index = sub_index;
        let data = match self.read_variable_bytes(index, sub_index) {
            Ok(d) => d,
            Err(c) => return Err(c),
        };
        if data.len() == 0 || data.len() > 0xFFFF_FFFF {
            return Err(AbortCode::GeneralError);
        }
        let len_bytes = le_bytes_of(data.len() as u64, 4);
        self.read_buf = Some(data);
        self.read_buf_index = 0;
        let crc_bit: u8 = if self.crc_enabled { 1 } else { 0 };
        let resp_cmd = 0xC2 | (crc_bit << 2u8);
        self.sdo_state = SdoState::StartSdoBlockUpload;
        Ok(make_sdo_payload(resp_cmd, index, sub_index, len_bytes.as_slice()))
    }

    /// The client's start of a block upload: every segment but the last
    /// goes out at once, segment `k` as `(k, seven bytes)`; the last one,
    /// with its number or-ed with 0x80, is the reply.
    #[verifier::spinoff_prover]
    pub fn start_block_upload(&mut self, req: &Vec<u8>) -> (r: Result<Vec<u8>, AbortCode>)
        requires
            old(self).wf(),
            old(self).sdo_state == SdoState::StartSdoBlockUpload,
            old(self).sdo_consistent(),
            req@.len() == 8,
        ensures
            sdo_frame_kept(final(self), old(self)),
            r is Err ==> final(self).outbox == old(self).outbox,
            r is Ok ==> final(self).sdo_consistent() && final(self).sdo_state == SdoState::ConfirmUploadSdoBlock,
            !(req@[0] >> 5u8 == 5 && req@[0] & 3 == 3) ==> r == Err::<Vec<u8>, AbortCode>(AbortCode::GeneralError),
            req@[0] >> 5u8 == 5 && req@[0] & 3 == 3 && segment_count(old(self).read_buf->Some_0@.len()) <= 0x7F ==> r is Ok,
            r is Ok ==> forall|k: int| old(self).outbox@.len() <= k < final(self).outbox@.len() ==> (#[trigger] final(self).outbox@[k]).cob_id == (0x580u16 | old(self).node_id as u16),
            ({
                let b = old(self).read_buf->Some_0@;
                let total = segment_count(b.len());
                r matches Ok(p) ==> total <= 0x7F && final(self).outbox@.len() == old(self).outbox@.len() + total - 1
                    && p@ == fit8(seq![((total as u8) | 0x80u8) as u8] + segment(b, (total - 1) as nat))
                    && forall|k: int| 0 <= k < total - 1 ==> (#[trigger] final(self).outbox@[old(self).outbox@.len() + k]).data@ == fit8(seq![(k + 1) as u8] + segment(b, k as nat))
            }),
    {
        let cmd = SdoBlockUploadCmd::from(req[0]);
        if cmd.ccs() != 5 || cmd.cs() != 3 {
            return Err(AbortCode::GeneralError);
        }
        let buf = match &self.read_buf {
            Some(b) => crate::util::copy_bytes(b.as_slice()),
            None => return Err(AbortCode::GeneralError),
        };
        let ghost bv = buf@;
        let total = (buf.len() - 1) / 7 + 1;
        if total > 0x7F {
            return Err(AbortCode::GeneralError);
        }
        let ghost base = self.outbox@.len();
        let nid16 = self.node_id as u16;
        proof {
            assert((0x580u16 | nid16) <= 0x5FF) by (bit_vector)
                requires
                    nid16 <= 0xFF,
            ;
        }
        let mut i: usize = 0;
        while i + 1 < total
            invariant
                i + 1 <= total <= 0x7F,
                total == segment_count(bv.len()),
                buf@ == bv,
                bv.len() > 0,
                self.outbox@.len() == base + i,
                base == old(self).outbox@.len(),
                sdo_frame_kept(self, old(self)),
                self.keeps_counters(old(self)),
                self.pdo_objects == old(self).pdo_objects,
                forall|k: int| 0 <= k < i ==> (#[trigger] self.outbox@[base + k]).data@ == fit8(seq![(k + 1) as u8] + segment(bv, k as nat)),
                forall|k: int| base <= k < self.outbox@.len() ==> (#[trigger] self.outbox@[k]).cob_id == (0x580u16 | old(self).node_id as u16),
                nid16 == old(self).node_id as u16,
                (0x580u16 | nid16) <= 0x5FF,
            decreases total - i,
        {
            let seg = slice_of(&buf, i * 7, i * 7 + 7);
            assert(segment(bv, i as nat) =~= seg@);
            let mut bytes: Vec<u8> = vec![(i + 1) as u8];
            append_bytes(&mut bytes, &seg);
            assert(bytes@ =~= seq![(i + 1) as u8] + segment(bv, i as nat));
            let frame = match create_frame_with_padding(COB_FUNC_TRANSMIT_SDO | self.node_id as u16, bytes.as_slice()) {
                Ok(f) => f,
                Err(_) => return Err(AbortCode::GeneralError),
            };
            let ghost prev = self.outbox@;
            self.transmit(frame);
            assert(forall|k: int| 0 <= k < base ==> self.outbox@[k] == prev[k]);
            i = i + 1;
        }
        let s = (total - 1) * 7;
        let last = slice_of(&buf, s, buf.len());
        assert(segment(bv, (total - 1) as nat) =~= last@);
        let mut bytes: Vec<u8> = vec![(total as u8) | 0x80];
        append_bytes(&mut bytes, &last);
        assert(bytes@ =~= seq![((total as u8) | 0x80u8) as u8] + segment(bv, (total - 1) as nat));
        self.sdo_state = SdoState::ConfirmUploadSdoBlock;
        Ok(crate::util::fit_to_8_pub(bytes.as_slice()))
    }

    /// The client's confirmation of a block upload: the acknowledged
    /// sequence number must be the segment count; the reply carries the
    /// unused bytes of the last segment and the CRC when negotiated, and
    /// ends the transfer.
    pub fn confirm_block_upload(&mut self, req: &Vec<u8>) -> (r: Result<Vec<u8>, AbortCode>)
        requires
            old(self).wf(),
            old(self).sdo_state == SdoState::ConfirmUploadSdoBlock,
            old(self).sdo_consistent(),
            req@.len() == 8,
        ensures
            sdo_frame_kept(final(self), old(self)),
            final(self).outbox == old(self).outbox,
            r is Ok ==> final(self).sdo_consistent() && final(self).sdo_state == SdoState::Normal,
            !(req@[0] >> 5u8 == 5 && req@[0] & 3 == 2) ==> r == Err::<Vec<u8>, AbortCode>(AbortCode::GeneralError),
            ({
                let b = old(self).read_buf->Some_0@;
                let n = (7 - b.len() % 7) as u8;
                let crc = if old(self).need_crc { crc16_spec(b) } else { 0u16 };
                &&& (req@[0] >> 5u8 == 5 && req@[0] & 3 == 2 && req@[1] as nat != segment_count(b.len()) ==> r == Err::<Vec<u8>, AbortCode>(AbortCode::CommandSpecifierNotValidOrUnknown))
                &&& (req@[0] >> 5u8 == 5 && req@[0] & 3 == 2 && req@[1] as nat == segment_count(b.len()) ==> r is Ok)
                &&& (r matches Ok(p) ==> p@ == seq![(0xC1 | (n << 2u8)) as u8, (crc % 0x100) as u8, (crc / 0x100) as u8, 0u8, 0u8, 0u8, 0u8, 0u8])
            }),
    {
        let cmd = SdoBlockUploadCmd::from(req[0]);
        if cmd.ccs() != 5 || cmd.cs() != 2 {
            return Err(AbortCode::GeneralError);
        }
        let buf = match &self.read_buf {
            Some(b) => crate::util::copy_bytes(b.as_slice()),
            None => return Err(AbortCode::GeneralError),
        };
        let ackseq = req[1];
        let blksize = req[2];
        if ackseq as usize != (buf.len() - 1) / 7 + 1 {
            return Err(AbortCode::CommandSpecifierNotValidOrUnknown);
        }
        self.block_size = blksize;
        let n = (7 - buf.len() % 7) as u8;
        let resp_cmd = 0xC1 | (n << 2u8);
        let crc: u16 = if self.need_crc {
            crc16_canopen_with_lut(buf.as_slice())
        } else {
            0
        };
        let resp: Vec<u8> = vec![resp_cmd, (crc % 0x100) as u8, (crc / 0x100) as u8, 0, 0, 0, 0, 0];
        self.read_buf = None;
        self.sdo_state = SdoState::Normal;
        Ok(resp)
    }
}

fn append_bytes(dst: &mut Vec<u8>, src: &Vec<u8>)
    ensures
        final(dst)@ == old(dst)@ + src@,
{
    let mut i: usize = 0;
    while i < src.len()
        invariant
            i <= src@.len(),
            dst@ == old(dst)@ + src@.subrange(0, i as int),
        decreases src@.len() - i,
    {
        dst.push(src[i]);
        assert(dst@ =~= old(dst)@ + src@.subrange(0, i + 1));
        i = i + 1;
    }
    assert(src@.subrange(0, i as int) =~= src@);
}

/// What handling an SDO request `frame` does, from node `o` to node `n`
/// with result `r`.
pub open spec fn sdo_post(o: Node, n: Node, frame: CanFrame, r: Result<(), AbortCode>) -> bool {
        let d = frame.data@;
        let cob = (0x580u16 | o.node_id as u16) as u16;
        let addressed = frame.cob_id % 0x80 == o.node_id as u16 && d.len() == 8;
        let index = (d[1] as u16 + 256 * d[2] as u16) as u16;
        let sub = d[3];
        let ccs = d[0] >> 5u8;
        let normal = o.sdo_state == SdoState::Normal;
        let pair = if normal { (index, sub) } else { (o.reserved_index, o.reserved_sub_index) };
        let last = n.outbox@.last();
        let one_more = n.outbox@.len() == o.outbox@.len() + 1;
        &&& (!addressed ==> r is Ok && n.outbox == o.outbox && n.sdo_state == o.sdo_state)
        &&& (addressed ==> forall|k: int| o.outbox@.len() <= k < n.outbox@.len() ==> (#[trigger] n.outbox@[k]).cob_id == cob)
        &&& (r matches Err(c) ==> addressed && n.sdo_state == SdoState::Normal && n.read_buf is None
            && n.write_buf is None && one_more && last.data@ == abort_payload(pair.0, pair.1, c))
        &&& (addressed && normal && !(ccs == 1 || ccs == 2 || ccs == 5 || ccs == 6) ==> r == Err::<(), AbortCode>(AbortCode::CommandSpecifierNotValidOrUnknown))
        &&& (addressed && normal && ccs == 2 ==> n.object_directory@ == crate::object_directory::od_after_access(o.object_directory@, index, sub))
        &&& (addressed && normal && ccs == 2 ==> match spec_variable(o.object_directory@, index, sub) {
            Err(c) => r == Err::<(), AbortCode>(c),
            Ok(v) => if !v.access_type.read_access {
                r == Err::<(), AbortCode>(AbortCode::AttemptToReadWriteOnlyObject)
            } else if v.value.len() == 0 {
                r == Err::<(), AbortCode>(AbortCode::GeneralError)
            } else if v.value.len() <= 4 {
                r is Ok && one_more && last.data@ == sdo_payload(expedited_upload_cmd(v.value.len()), index, sub, v.value)
                    && n.sdo_state == SdoState::Normal
            } else {
                r is Ok && one_more && last.data@ == sdo_payload(0x41, index, sub, le_bytes(v.value.len(), 4))
                    && n.sdo_state == SdoState::SdoSegmentUpload
            },
        })
        &&& (addressed && normal && ccs == 1 && (d[0] >> 1u8) & 1 == 1 && d[0] & 1 == 1 && !(0x1400 <= index <= 0x1BFF) ==> {
            let data = d.subrange(4, 8 - ((d[0] >> 2u8) & 3) as int);
            match write_outcome(o.object_directory@, index, sub, data) {
                Err(c) => r == Err::<(), AbortCode>(c)
                    && n.object_directory@ == crate::object_directory::od_after_access(o.object_directory@, index, sub),
                Ok(_) => r is Ok && one_more && last.data@ == sdo_payload(0x60, index, sub, seq![0u8, 0u8, 0u8, 0u8])
                    && n.sdo_state == SdoState::Normal
                    && n.object_directory@ == crate::object_directory::od_with_value(
                        crate::object_directory::od_after_access(o.object_directory@, index, sub), index, sub, data),
            }
        })
        &&& (addressed && normal && ccs == 1 && (d[0] >> 1u8) & 1 == 1 && d[0] & 1 == 1 && r is Ok ==> one_more
            && last.data@ == sdo_payload(0x60, index, sub, seq![0u8, 0u8, 0u8, 0u8])
            && (crate::pdo::pdo_slot(index) matches Some(s) ==> ({
                let p = n.pdo_objects.pdos@[s];
                let m = crate::pdo::cob_entries(n.pdo_objects.cob_to_index);
                &&& p.total_length as nat == crate::pdo::mapped_bits(p.mappings@, p.num_of_map_objs as nat)
                &&& (p.is_pdo_valid <==> (m.contains_key(p.cob_id) && m[p.cob_id] == s))
            })))
        &&& (addressed && normal && ccs == 1 && !((d[0] >> 1u8) & 1 == 1 && d[0] & 1 == 1) ==> r is Ok && one_more
            && last.data@ == sdo_payload(0x60, index, sub, seq![0u8, 0u8, 0u8, 0u8]) && n.sdo_state == SdoState::SdoSegmentDownload)
        &&& (addressed && normal && ccs == 6 ==> r is Ok && one_more && n.sdo_state == SdoState::DownloadSdoBlock
            && last.data@ == sdo_payload((0xA0 | ((if o.crc_enabled { 1u8 } else { 0u8 }) << 2u8)) as u8, index, sub, seq![o.block_size, 0u8, 0u8, 0u8]))
        &&& (addressed && normal && ccs == 5 && d[0] & 3 == 1 ==> r is Ok && n.outbox == o.outbox)
        &&& (addressed && normal && ccs == 5 && d[0] & 3 == 0 && d[4] >= 0x80 ==> r == Err::<(), AbortCode>(AbortCode::InvalidBlockSize))
        &&& (addressed && normal && ccs == 5 && d[0] & 3 == 0 && d[4] < 0x80 ==> match spec_variable(o.object_directory@, index, sub) {
            Err(c) => r == Err::<(), AbortCode>(c),
            Ok(v) => if !v.access_type.read_access {
                r == Err::<(), AbortCode>(AbortCode::AttemptToReadWriteOnlyObject)
            } else if v.value.len() == 0 || v.value.len() > 0xFFFF_FFFF {
                r == Err::<(), AbortCode>(AbortCode::GeneralError)
            } else {
                r is Ok && one_more && n.sdo_state == SdoState::StartSdoBlockUpload
                    && last.data@ == sdo_payload((0xC2 | ((if o.crc_enabled { 1u8 } else { 0u8 }) << 2u8)) as u8, index, sub, le_bytes(v.value.len(), 4))
            },
        })
        &&& (addressed && o.sdo_state == SdoState::SdoSegmentDownload ==> {
            &&& (ccs != 0 ==> r == Err::<(), AbortCode>(AbortCode::GeneralError))
            &&& (ccs == 0 && d[0] & 1 == 0 ==> r is Ok && one_more && n.sdo_state == SdoState::SdoSegmentDownload
                && last.data@ == fit8(seq![(0x20 | (((d[0] >> 4u8) & 1) << 4u8)) as u8])
                && (n.write_buf matches Some(b) && b@ == o.write_buf->Some_0@ + d.subrange(1, 8)))
            &&& (r is Ok && d[0] & 1 == 1 ==> one_more && n.sdo_state == SdoState::Normal
                && last.data@ == fit8(seq![(0x20 | (((d[0] >> 4u8) & 1) << 4u8)) as u8]))
        })
        &&& (addressed && o.sdo_state == SdoState::DownloadSdoBlock ==> {
            &&& (d[0] & 0x7F != o.current_seq_number.wrapping_add(1) ==> r == Err::<(), AbortCode>(AbortCode::InvalidSequenceNumber))
            &&& (d[0] & 0x7F == o.current_seq_number.wrapping_add(1) && d[0] >> 7u8 == 1 ==> r is Ok && one_more
                && n.sdo_state == SdoState::EndSdoBlockDownload && last.data@ == fit8(seq![0xA2u8, n.current_seq_number, n.block_size]))
            &&& (d[0] & 0x7F == o.current_seq_number.wrapping_add(1) && d[0] >> 7u8 == 0 ==> r is Ok && n.outbox == o.outbox
                && n.sdo_state == SdoState::DownloadSdoBlock)
        })
        &&& (addressed && o.sdo_state == SdoState::EndSdoBlockDownload ==> {
            &&& (((d[0] >> 2u8) & 7) as int != 7 - o.write_data_size as int % 7 ==> r == Err::<(), AbortCode>(AbortCode::GeneralError))
            &&& (r is Ok ==> one_more && n.sdo_state == SdoState::Normal && last.data@ == fit8(seq![0xA1u8]))
        })
        &&& (addressed && o.sdo_state == SdoState::StartSdoBlockUpload ==> {
            &&& (!(ccs == 5 && d[0] & 3 == 3) ==> r == Err::<(), AbortCode>(AbortCode::GeneralError))
            &&& (ccs == 5 && d[0] & 3 == 3 && segment_count(o.read_buf->Some_0@.len()) <= 0x7F ==> r is Ok
                && n.sdo_state == SdoState::ConfirmUploadSdoBlock
                && n.outbox@.len() == o.outbox@.len() + segment_count(o.read_buf->Some_0@.len()))
        })
        &&& (addressed && o.sdo_state == SdoState::ConfirmUploadSdoBlock ==> {
            let b = o.read_buf->Some_0@;
            let nn = (7 - b.len() % 7) as u8;
            let crc = if o.need_crc { crate::util::crc16_spec(b) } else { 0u16 };
            &&& (!(ccs == 5 && d[0] & 3 == 2) ==> r == Err::<(), AbortCode>(AbortCode::GeneralError))
            &&& (ccs == 5 && d[0] & 3 == 2 && d[1] as nat != segment_count(b.len()) ==> r == Err::<(), AbortCode>(AbortCode::CommandSpecifierNotValidOrUnknown))
            &&& (ccs == 5 && d[0] & 3 == 2 && d[1] as nat == segment_count(b.len()) ==> r is Ok && one_more && n.sdo_state == SdoState::Normal
                && last.data@ == seq![(0xC1 | (nn << 2u8)) as u8, (crc % 0x100) as u8, (crc / 0x100) as u8, 0u8, 0u8, 0u8, 0u8, 0u8])
        })
        &&& (addressed && o.sdo_state == SdoState::SdoSegmentUpload ==> {
            let b = o.read_buf->Some_0@;
            let i = o.read_buf_index;
            let t = (d[0] >> 4u8) & 1;
            let rem = b.len() - i;
            &&& (ccs != 3 ==> r == Err::<(), AbortCode>(AbortCode::GeneralError))
            &&& (ccs == 3 && t != o.next_read_toggle ==> r == Err::<(), AbortCode>(AbortCode::ToggleBitNotAlternated))
            &&& (ccs == 3 && t == o.next_read_toggle ==> r is Ok && one_more && n.next_read_toggle == 1 - t
                && last.data@ == fit8(seq![if rem > 7 { t << 4u8 } else { (1 | (t << 4u8) | (((7 - rem) as u8) << 1u8)) as u8 }] + segment(b, (i / 7) as nat))
                && (rem > 7 ==> n.sdo_state == SdoState::SdoSegmentUpload && n.read_buf_index == i + 7)
                && (rem <= 7 ==> n.sdo_state == SdoState::Normal))
        })
}

/// The payload of an abort reply: `0x80`, index (LE), sub-index, code (LE).
pub open spec fn abort_payload(index: u16, sub_index: u8, code: AbortCode) -> Seq<u8> {
    sdo_payload(0x80, index, sub_index, le_bytes(code.spec_code() as nat, 4))
}

impl Node {
    /// An SDO request addressed to this node, in the transfer state the node
    /// is in. A reply goes out on `0x580 + node_id`; on any failure the
    /// reply is an abort with the code, for the addressed entry (or the
    /// entry of the transfer in progress), and the transfer is dropped.
    /// Requests of other than eight bytes are ignored.
    #[verifier::spinoff_prover]
    #[verifier::rlimit(100)]
    pub fn process_sdo_frame(&mut self, frame: &CanFrame) -> (r: Result<(), AbortCode>)
        requires
            old(self).wf(),
            old(self).sdo_consistent(),
        ensures
            sdo_frame_kept(final(self), old(self)),
            final(self).sdo_consistent(),
            sdo_post(*old(self), *final(self), *frame, r),
    {
        if self.filter_frame(frame) || frame.data.len() != 8 {
            return Ok(());
        }
        let req = crate::util::copy_bytes(frame.data.as_slice());
        let cmd = req[0];
        let ccs = cmd >> 5u8;
        let index = (req[1] as u16) + 256 * (req[2] as u16);
        let sub_index = req[3];
        let was_normal = self.sdo_state == SdoState::Normal;
        let (idx, sidx) = if was_normal {
            (index, sub_index)
        } else {
            (self.reserved_index, self.reserved_sub_index)
        };
        let res = match self.sdo_state {
            SdoState::SdoSegmentDownload => self.download_segment(&req),
            SdoState::SdoSegmentUpload => {
                let res = self.upload_segment(cmd);
                proof {
                    if res is Ok {
                        let p = res->Ok_0@;
                        assert(p =~= seq![p[0]] + p.subrange(1, p.len() as int));
                    }
                }
                res
            },
            SdoState::DownloadSdoBlock => self.block_download(&req),
            SdoState::EndSdoBlockDownload => self.end_block_download(&req),
            SdoState::StartSdoBlockUpload => self.start_block_upload(&req),
            SdoState::ConfirmUploadSdoBlock => self.confirm_block_upload(&req),
            SdoState::Normal => {
                if ccs == 1 {
                    self.initiate_download(index, sub_index, &req)
                } else if ccs == 2 {
                    self.initiate_upload(index, sub_index)
                } else if ccs == 6 {
                    self.init_block_download(index, sub_index, &req)
                } else if ccs == 5 {
                    if cmd & 3 == 1 {
                        Ok(Vec::new())
                    } else {
                        self.init_block_upload(index, sub_index, &req)
                    }
                } else {
                    Err(AbortCode::CommandSpecifierNotValidOrUnknown)
                }
            },
        };
        let cob: u16 = COB_FUNC_TRANSMIT_SDO | self.node_id as u16;
        let nid16 = self.node_id as u16;
        proof {
            assert((0x580u16 | nid16) <= 0x5FF) by (bit_vector)
                requires
                    nid16 <= 0xFF,
            ;
        }
        match res {
            Ok(payload) => {
                if payload.len() > 0 {
                    let ghost pv = payload@;
                    match create_frame_with_padding(cob, payload.as_slice()) {
                        Ok(f) => {
                            let ghost prev = self.outbox@;
                            proof {
                                if pv.len() == 8 {
                                    assert(fit8(pv) =~= pv);
                                }
                            }
                            self.transmit(f);
                            assert(forall|k: int| 0 <= k < prev.len() ==> self.outbox@[k] == prev[k]);
                        },
                        Err(_) => {},
                    }
                }
                Ok(())
            },
            Err(code) => {
                self.sdo_state = SdoState::Normal;
                self.read_buf = None;
                self.write_buf = None;
                self.need_crc = false;
                let code_bytes = le_bytes_of(code.code() as u64, 4);
                let payload = make_sdo_payload(0x80, idx, sidx, code_bytes.as_slice());
                match create_frame_with_padding(cob, payload.as_slice()) {
                    Ok(f) => {
                        let ghost prev = self.outbox@;
                        proof {
                            assert(fit8(payload@) =~= payload@);
                        }
                        self.transmit(f);
                        assert(forall|k: int| 0 <= k < prev.len() ==> self.outbox@[k] == prev[k]);
                    },
                    Err(_) => {},
                }
                Err(code)
            },
        }
    }
}

} // verus!
