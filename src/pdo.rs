use vstd::prelude::*;
use vstd::arithmetic::power2::{pow2, lemma_pow2_adds, lemma_pow2_pos, lemma_pow2_strictly_increases, lemma_pow2_unfold};
use vstd::arithmetic::div_mod::lemma_fundamental_div_mod_converse;
use crate::error::ErrorCode;
use crate::util::{be_bytes, be_bytes_of, be_value, le_value, min_nat, pow256, vec_to_u64};
use crate::value::{ByteConvertible, Value};
use crate::error::AbortCode;
use crate::node::{Node, NodeEvent};
use crate::object_directory::{spec_variable, DirectoryView, Variable};
use crate::util::{create_frame, le_bytes_of, make_abort_error, CanFrame};

verus! {

/// The largest number of mapped objects, and of mapped bits, in one PDO.
pub const MAX_PDO_MAPPING_LENGTH: u8 = 64;

/// The total width of a sequence of (value, width) pairs.
pub open spec fn bits_total(vs: Seq<(u64, u8)>) -> nat
    decreases vs.len(),
{
    if vs.len() == 0 {
        0
    } else {
        bits_total(vs.drop_last()) + vs.last().1 as nat
    }
}

/// The widths of a sequence of (value, width) pairs.
pub open spec fn bits_of(vs: Seq<(u64, u8)>) -> Seq<u8> {
    vs.map_values(|p: (u64, u8)| p.1)
}

/// The bit stream of the pairs read as one number: the first pair in the
/// most significant bits, each value cut to its width.
pub open spec fn packed_value(vs: Seq<(u64, u8)>) -> nat
    decreases vs.len(),
{
    if vs.len() == 0 {
        0
    } else {
        packed_value(vs.drop_last()) * pow2(vs.last().1 as nat) + (vs.last().0 as nat) % pow2(
            vs.last().1 as nat,
        )
    }
}

/// The number of bytes that `n` bits take.
pub open spec fn ceil8(n: nat) -> nat {
    (n + 7) / 8
}

/// The bytes of `pack_data`: the packed stream, big-endian, in just enough
/// bytes for its width.
pub open spec fn spec_pack(vs: Seq<(u64, u8)>) -> Seq<u8> {
    be_bytes(packed_value(vs), ceil8(bits_total(vs)))
}

/// `v` split into fields of widths `bs`, the last width taking the least
/// significant bits.
pub open spec fn spec_unpack(v: nat, bs: Seq<u8>) -> Seq<(u64, u8)>
    decreases bs.len(),
{
    if bs.len() == 0 {
        Seq::empty()
    } else {
        spec_unpack(v / pow2(bs.last() as nat), bs.drop_last()).push(
            ((v % pow2(bs.last() as nat)) as u64, bs.last()),
        )
    }
}

/// Each value cut to its width.
pub open spec fn masked(vs: Seq<(u64, u8)>) -> Seq<(u64, u8)> {
    vs.map_values(|p: (u64, u8)| (((p.0 as nat) % pow2(p.1 as nat)) as u64, p.1))
}

/// What `unpack_data` returns for `bytes` and widths `bits`.
pub open spec fn spec_unpack_bytes(bytes: Seq<u8>, bits: Seq<u8>) -> Seq<(u64, u8)> {
    spec_unpack(be_value(bytes.subrange(0, min_nat(bytes.len(), 8) as int)), bits)
}

fn pow2_exec(b: u8) -> (r: u128)
    requires
        b <= 64,
    ensures
        r == pow2(b as nat),
        r <= 0x1_0000_0000_0000_0000,
{
    let mut r: u128 = 1;
    let mut i: u8 = 0;
    proof {
        vstd::arithmetic::power2::lemma2_to64();
    }
    while i < b
        invariant
            i <= b <= 64,
            r == pow2(i as nat),
        decreases b - i,
    {
        proof {
            lemma_pow2_unfold((i + 1) as nat);
            lemma_pow2_strictly_increases((i + 1) as nat, 65);
            vstd::arithmetic::power2::lemma2_to64();
            assert(pow2(65) == 2 * pow2(64)) by {
                lemma_pow2_unfold(65);
            }
        }
        r = r * 2;
        i = i + 1;
    }
    proof {
        if b < 64 {
            lemma_pow2_strictly_increases(b as nat, 64);
        }
        vstd::arithmetic::power2::lemma2_to64();
    }
    r
}

proof fn lemma_packed_bound(vs: Seq<(u64, u8)>)
    ensures
        packed_value(vs) < pow2(bits_total(vs)),
    decreases vs.len(),
{
    if vs.len() == 0 {
        vstd::arithmetic::power2::lemma2_to64();
    } else {
        let init = vs.drop_last();
        let b = vs.last().1 as nat;
        lemma_packed_bound(init);
        let p = packed_value(init);
        let t = pow2(bits_total(init));
        let m = pow2(b);
        let r = (vs.last().0 as nat) % m;
        lemma_pow2_pos(b);
        lemma_pow2_adds(bits_total(init), b);
        assert(r < m);
        assert(p * m + r < t * m) by (nonlinear_arith)
            requires
                p < t,
                r < m,
                m > 0,
        ;
    }
}

proof fn lemma_pow256_pow2(k: nat)
    ensures
        pow256(k) == pow2(8 * k),
    decreases k,
{
    if k == 0 {
        vstd::arithmetic::power2::lemma2_to64();
    } else {
        lemma_pow256_pow2((k - 1) as nat);
        lemma_pow2_adds(8 * (k - 1) as nat, 8);
        vstd::arithmetic::power2::lemma2_to64();
        assert(8 * k == 8 * (k - 1) as nat + 8);
    }
}

proof fn lemma_be_round_trip(v: nat, k: nat)
    requires
        v < pow256(k),
    ensures
        be_value(be_bytes(v, k)) == v,
    decreases k,
{
    if k > 0 {
        let s = be_bytes((v / 256) as nat, (k - 1) as nat);
        let q = v / 256;
        let pk = pow256((k - 1) as nat);
        assert(q < pk) by (nonlinear_arith)
            requires
                v < 256 * pk,
                q == v / 256,
        ;
        lemma_be_round_trip(q as nat, (k - 1) as nat);
        assert(be_bytes(v, k).drop_last() =~= s);
        assert(q * 256 + v % 256 == v) by (nonlinear_arith)
            requires
                q == v / 256,
        ;
    }
}

proof fn lemma_unpack_packed(vs: Seq<(u64, u8)>)
    ensures
        spec_unpack(packed_value(vs), bits_of(vs)) == masked(vs),
    decreases vs.len(),
{
    if vs.len() == 0 {
        assert(masked(vs) =~= Seq::<(u64, u8)>::empty());
    } else {
        let init = vs.drop_last();
        let b = vs.last().1 as nat;
        let m = pow2(b);
        let p = packed_value(init);
        let r = (vs.last().0 as nat) % m;
        lemma_pow2_pos(b);
        lemma_fundamental_div_mod_converse((p * m + r) as int, m as int, p as int, r as int);
        lemma_unpack_packed(init);
        assert(bits_of(vs).drop_last() =~= bits_of(init));
        assert(bits_of(vs).last() == vs.last().1);
        assert(masked(vs) =~= masked(init).push(((r as nat) as u64, vs.last().1)));
    }
}

proof fn lemma_bits_total_le(vs: Seq<(u64, u8)>, k: int)
    requires
        0 <= k <= vs.len(),
    ensures
        bits_total(vs.subrange(0, k)) <= bits_total(vs),
        k < vs.len() ==> bits_total(vs.subrange(0, k + 1)) == bits_total(vs.subrange(0, k)) + vs[k].1,
    decreases vs.len() - k,
{
    if k < vs.len() {
        assert(vs.subrange(0, k + 1).drop_last() =~= vs.subrange(0, k));
        lemma_bits_total_le(vs, k + 1);
    } else {
        assert(vs.subrange(0, k) =~= vs);
    }
}

/// Unpacking the bytes that `pack_data` makes, with the same widths, gives
/// back the pairs with each value cut to its width, for pairs whose widths
/// add up to at most 64 bits.
pub proof fn lemma_pack_unpack_round_trip(vs: Seq<(u64, u8)>)
    requires
        bits_total(vs) <= 64,
    ensures
        spec_unpack_bytes(spec_pack(vs), bits_of(vs)) == masked(vs),
{
    let k = ceil8(bits_total(vs));
    let p = packed_value(vs);
    lemma_packed_bound(vs);
    lemma_pow256_pow2(k);
    if bits_total(vs) < 8 * k {
        lemma_pow2_strictly_increases(bits_total(vs), 8 * k);
    }
    lemma_be_round_trip(p, k);
    lemma_be_len(p, k);
    assert(spec_pack(vs).subrange(0, min_nat(spec_pack(vs).len(), 8) as int) =~= spec_pack(vs));
    lemma_unpack_packed(vs);
}

proof fn lemma_be_len(v: nat, k: nat)
    ensures
        be_bytes(v, k).len() == k,
    decreases k,
{
    if k > 0 {
        lemma_be_len(v / 256, (k - 1) as nat);
    }
}

/// Packs (value, width) pairs into a big-endian bit stream, the first pair
/// in the most significant bits, each value cut to its width, in
/// `ceil(total width / 8)` bytes.
pub fn pack_data(vec: &[(u64, u8)]) -> (r: Vec<u8>)
    requires
        bits_total(vec@) <= 64,
    ensures
        r@ == spec_pack(vec@),
        r@.len() == ceil8(bits_total(vec@)),
{
    let mut merged: u128 = 0;
    let mut total_bits: u8 = 0;
    let mut i: usize = 0;
    while i < vec.len()
        invariant
            i <= vec@.len(),
            bits_total(vec@) <= 64,
            total_bits as nat == bits_total(vec@.subrange(0, i as int)),
            merged as nat == packed_value(vec@.subrange(0, i as int)),
        decreases vec@.len() - i,
    {
        let (data, bits) = vec[i];
        proof {
            lemma_bits_total_le(vec@, i as int);
            lemma_bits_total_le(vec@, i + 1);
            lemma_packed_bound(vec@.subrange(0, i as int));
            assert(vec@.subrange(0, i + 1).drop_last() =~= vec@.subrange(0, i as int));
        }
        let m = pow2_exec(bits);
        proof {
            lemma_pow2_pos(bits as nat);
            let t = pow2(total_bits as nat);
            if total_bits < 64 {
                lemma_pow2_strictly_increases(total_bits as nat, 64);
            }
            vstd::arithmetic::power2::lemma2_to64();
            let mi = merged as int;
            let mm = m as int;
            let ti = t as int;
            let ri = (data as int) % mm;
            assert(0 <= ri < mm);
            assert(mi * mm + ri < ti * mm) by (nonlinear_arith)
                requires
                    0 <= mi < ti,
                    0 <= ri < mm,
            ;
            lemma_pow2_adds(total_bits as nat, bits as nat);
            if (total_bits + bits) < 64 {
                lemma_pow2_strictly_increases((total_bits + bits) as nat, 64);
            }
            assert(mi * mm >= 0) by (nonlinear_arith)
                requires
                    mi >= 0,
                    mm >= 0,
            ;
        }
        merged = merged * m + (data as u128) % m;
        total_bits = total_bits + bits;
        i = i + 1;
    }
    assert(vec@.subrange(0, i as int) =~= vec@);
    proof {
        lemma_packed_bound(vec@);
        vstd::arithmetic::power2::lemma2_to64();
        if total_bits < 64 {
            lemma_pow2_strictly_increases(total_bits as nat, 64);
        }
        lemma_be_len(merged as nat, ((total_bits as nat + 7) / 8) as nat);
    }
    be_bytes_of(merged as u64, ((total_bits as usize) + 7) / 8)
}

/// Splits the big-endian value of (at most the first eight of) `vec` into
/// fields of the widths `bits`, the last width taking the least significant
/// bits.
pub fn unpack_data(vec: &[u8], bits: &[u8]) -> (r: Vec<(u64, u8)>)
    ensures
        r@ == spec_unpack_bytes(vec@, bits@),
{
    let data = vec_to_u64(vec);
    let mut cur: u128 = data as u128;
    let mut res: Vec<(u64, u8)> = Vec::new();
    let mut k: usize = bits.len();
    let ghost v = data as nat;
    assert(bits@.subrange(0, k as int) =~= bits@);
    while k > 0
        invariant
            k <= bits@.len(),
            cur < 0x1_0000_0000_0000_0000,
            spec_unpack(v, bits@) == spec_unpack(cur as nat, bits@.subrange(0, k as int)) + res@,
        decreases k,
    {
        let b = bits[k - 1];
        let ghost pre = bits@.subrange(0, k as int);
        assert(pre.drop_last() =~= bits@.subrange(0, k - 1));
        assert(pre.last() == b);
        let (field, rest): (u128, u128) = if b >= 64 {
            proof {
                vstd::arithmetic::power2::lemma2_to64();
                if b > 64 {
                    lemma_pow2_strictly_increases(64, b as nat);
                }
                lemma_fundamental_div_mod_converse(cur as int, pow2(b as nat) as int, 0, cur as int);
            }
            (cur, 0)
        } else {
            let m = pow2_exec(b);
            proof {
                lemma_pow2_pos(b as nat);
            }
            (cur % m, cur / m)
        };
        let ghost before = res@;
        res.insert(0, (field as u64, b));
        assert(res@ =~= seq![(field as u64, b)] + before);
        assert(spec_unpack(cur as nat, pre) =~= spec_unpack(rest as nat, bits@.subrange(0, k - 1)).push((field as u64, b)));
        assert(spec_unpack(rest as nat, bits@.subrange(0, k - 1)).push((field as u64, b)) + before =~= spec_unpack(rest as nat, bits@.subrange(0, k - 1)) + res@);
        proof {
            if b < 64 {
                let pm = pow2(b as nat) as int;
                let ci = cur as int;
                assert(ci / pm <= ci) by (nonlinear_arith)
                    requires
                        pm > 0,
                        ci >= 0,
                ;
            }
        }
        cur = rest;
        k = k - 1;
    }
    assert(bits@.subrange(0, 0) =~= Seq::<u8>::empty());
    assert(res@ =~= Seq::<(u64, u8)>::empty() + res@);
    res
}

/// Whether a PDO fires. On a SYNC: a transmission type in `1..=240` that
/// divides the counter. Otherwise: at node start, or for the event-driven
/// types 0xFE and 0xFF with an event timer that divides the counter.
pub open spec fn spec_should_trigger(is_sync: bool, node_start: bool, transmission_type: u32, event_times: u32, count: u32) -> bool {
    if is_sync {
        transmission_type != 0 && transmission_type <= 240 && count % transmission_type == 0
    } else {
        node_start || ((transmission_type == 0xFE || transmission_type == 0xFF) && event_times != 0
            && count % event_times == 0)
    }
}

/// Whether a PDO fires; see `spec_should_trigger`.
pub fn should_trigger_pdo(is_sync: bool, node_start: bool, transmission_type: u32, event_times: u32, count: u32) -> (r: bool)
    ensures
        r == spec_should_trigger(is_sync, node_start, transmission_type, event_times, count),
{
    if is_sync {
        if transmission_type == 0 || transmission_type > 240 || count % transmission_type != 0 {
            return false;
        }
    } else {
        if node_start {
            return true;
        }
        if transmission_type != 0xFE && transmission_type != 0xFF {
            return false;
        }
        if event_times == 0 || count % event_times != 0 {
            return false;
        }
    }
    true
}

/// The unsigned integer that a value holds when it has exactly `n` bytes;
/// zero otherwise.
pub open spec fn uint_of(b: Seq<u8>, n: nat) -> nat {
    if b.len() == n {
        le_value(b)
    } else {
        0
    }
}

pub proof fn lemma_uint_fits(b: Seq<u8>)
    ensures
        b.len() == 1 ==> le_value(b) < 0x100,
        b.len() == 2 ==> le_value(b) < 0x1_0000,
        b.len() == 4 ==> le_value(b) < 0x1_0000_0000,
{
    crate::util::lemma_le_value_bound(b);
    reveal_with_fuel(pow256, 5);
}

/// The number of mapped bits of the first `n` mappings.
pub open spec fn mapped_bits(mappings: Seq<(u16, u8, u8)>, n: nat) -> nat
    decreases n,
{
    if n == 0 || n > mappings.len() {
        0
    } else {
        mapped_bits(mappings, (n - 1) as nat) + mappings[n - 1].2 as nat
    }
}

/// The descriptor of one PDO: its communication and mapping parameters,
/// and for a receive PDO the payload last received.
#[derive(Debug, Clone)]
pub struct PdoObject {
    pub is_pdo_valid: bool,
    pub rtr_allowed: bool,
    pub is_29bit_can_id: bool,
    pub largest_sub_index: u8,
    pub cob_id: u16,
    pub transmission_type: u8,
    pub inhibit_time: u16,
    pub event_timer: u16,
    pub num_of_map_objs: u8,
    /// (index, sub-index, bit length) of each mapped object.
    pub mappings: Vec<(u16, u8, u8)>,
    /// The total bit length of the mapped objects.
    pub total_length: u8,
    pub cached_data: Vec<u8>,
}

impl PdoObject {
    /// The mapping table has its 64 entries, of which at most 64 are in use.
    pub open spec fn wf(&self) -> bool {
        self.mappings@.len() == MAX_PDO_MAPPING_LENGTH && self.num_of_map_objs <= MAX_PDO_MAPPING_LENGTH
    }

    /// The total length is the sum of the mapped bit lengths, and fits a
    /// frame.
    pub open spec fn length_consistent(&self) -> bool {
        self.total_length as nat == mapped_bits(self.mappings@, self.num_of_map_objs as nat)
            && self.total_length <= MAX_PDO_MAPPING_LENGTH
    }

    /// The descriptor of a slot that no parameter has been written to.
    pub open spec fn is_default(&self) -> bool {
        &&& !self.is_pdo_valid
        &&& self.largest_sub_index == 5
        &&& self.cob_id == 0
        &&& self.transmission_type == 1
        &&& self.inhibit_time == 0
        &&& self.event_timer == 0
        &&& self.num_of_map_objs == 0
        &&& self.total_length == 0
        &&& self.mappings@.len() == MAX_PDO_MAPPING_LENGTH
        &&& forall|q: int| 0 <= q < MAX_PDO_MAPPING_LENGTH ==> #[trigger] self.mappings@[q] == (0u16, 0u8, 0u8)
    }

    /// The descriptor of a slot that no parameter has been written to.
    pub fn new_default() -> (r: Self)
        ensures
            r.is_default(),
            r.wf(),
            r.length_consistent(),
            !r.is_pdo_valid,
            r.cached_data@.len() == 0,
    {
        let mut mappings: Vec<(u16, u8, u8)> = Vec::new();
        let mut i: u8 = 0;
        while i < MAX_PDO_MAPPING_LENGTH
            invariant
                i <= MAX_PDO_MAPPING_LENGTH,
                mappings@.len() == i,
                forall|q: int| 0 <= q < i ==> #[trigger] mappings@[q] == (0u16, 0u8, 0u8),
            decreases MAX_PDO_MAPPING_LENGTH - i,
        {
            mappings.push((0, 0, 0));
            i = i + 1;
        }
        PdoObject {
            is_pdo_valid: false,
            rtr_allowed: false,
            is_29bit_can_id: false,
            largest_sub_index: 5,
            cob_id: 0,
            transmission_type: 0x01,
            inhibit_time: 0,
            event_timer: 0,
            num_of_map_objs: 0,
            mappings,
            total_length: 0,
            cached_data: Vec::new(),
        }
    }

    pub fn total_length(&self) -> (r: u8)
        ensures
            r == self.total_length,
    {
        self.total_length
    }

    pub fn largest_sub_index(&self) -> (r: u8)
        ensures
            r == self.largest_sub_index,
    {
        self.largest_sub_index
    }

    pub fn cob_id(&self) -> (r: u16)
        ensures
            r == self.cob_id,
    {
        self.cob_id
    }

    pub fn transmission_type(&self) -> (r: u8)
        ensures
            r == self.transmission_type,
    {
        self.transmission_type
    }

    pub fn event_timer(&self) -> (r: u16)
        ensures
            r == self.event_timer,
    {
        self.event_timer
    }

    /// Keeps a received payload until the PDO fires.
    pub fn set_cached_data(&mut self, cached_data: &[u8])
        ensures
            final(self).cached_data@ == cached_data@,
            final(self).mappings == old(self).mappings,
            final(self).num_of_map_objs == old(self).num_of_map_objs,
            final(self).total_length == old(self).total_length,
            final(self).is_pdo_valid == old(self).is_pdo_valid,
            final(self).cob_id == old(self).cob_id,
            final(self).transmission_type == old(self).transmission_type,
            final(self).event_timer == old(self).event_timer,
            final(self).inhibit_time == old(self).inhibit_time,
            final(self).largest_sub_index == old(self).largest_sub_index,
            final(self).rtr_allowed == old(self).rtr_allowed,
            final(self).is_29bit_can_id == old(self).is_29bit_can_id,
    {
        self.cached_data = crate::util::copy_bytes(cached_data);
    }

    pub fn clear_cached_data(&mut self)
        ensures
            final(self).cached_data@.len() == 0,
            final(self).mappings == old(self).mappings,
            final(self).num_of_map_objs == old(self).num_of_map_objs,
            final(self).total_length == old(self).total_length,
            final(self).is_pdo_valid == old(self).is_pdo_valid,
            final(self).cob_id == old(self).cob_id,
            final(self).transmission_type == old(self).transmission_type,
            final(self).event_timer == old(self).event_timer,
            final(self).inhibit_time == old(self).inhibit_time,
            final(self).largest_sub_index == old(self).largest_sub_index,
            final(self).rtr_allowed == old(self).rtr_allowed,
            final(self).is_29bit_can_id == old(self).is_29bit_can_id,
    {
        self.cached_data = Vec::new();
    }

    /// Takes a communication parameter (sub-indices 0, 1, 2, 3 and 5).
    pub fn update_comm_params(&mut self, sub_index: u8, value: &Value) -> (r: Option<u16>)
        ensures
            r == Some(final(self).cob_id),
            final(self).mappings == old(self).mappings,
            final(self).num_of_map_objs == old(self).num_of_map_objs,
            final(self).total_length == old(self).total_length,
            final(self).cached_data == old(self).cached_data,
            sub_index == 0 ==> final(self).largest_sub_index as nat == uint_of(value@, 1),
            sub_index != 0 ==> final(self).largest_sub_index == old(self).largest_sub_index,
            sub_index != 3 ==> final(self).inhibit_time == old(self).inhibit_time,
            sub_index == 1 ==> final(self).is_pdo_valid == (uint_of(value@, 4) < 0x8000_0000)
                && final(self).cob_id as nat == uint_of(value@, 4) % 0x1_0000,
            sub_index != 1 ==> final(self).is_pdo_valid == old(self).is_pdo_valid && final(self).cob_id == old(self).cob_id,
            sub_index == 2 ==> final(self).transmission_type as nat == uint_of(value@, 1),
            sub_index != 2 ==> final(self).transmission_type == old(self).transmission_type,
            sub_index == 3 ==> final(self).inhibit_time as nat == uint_of(value@, 2),
            sub_index == 5 ==> final(self).event_timer as nat == uint_of(value@, 2),
            sub_index != 5 ==> final(self).event_timer == old(self).event_timer,
    {
        proof {
            lemma_uint_fits(value@);
        }
        match sub_index {
            0 => self.largest_sub_index = value.to::<u8>(),
            1 => {
                let t: u32 = value.to::<u32>();
                self.is_pdo_valid = t < 0x8000_0000;
                self.rtr_allowed = (t / 0x4000_0000) % 2 == 1;
                self.is_29bit_can_id = (t / 0x2000_0000) % 2 == 1;
                self.cob_id = (t % 0x1_0000) as u16;
            },
            2 => self.transmission_type = value.to::<u8>(),
            3 => self.inhibit_time = value.to::<u16>(),
            5 => self.event_timer = value.to::<u16>(),
            _ => {},
        }
        Some(self.cob_id)
    }

    /// Takes a mapping parameter: the count at sub-index 0, or the packed
    /// `(index << 16 | sub_index << 8 | bit_length)` entry at sub-index
    /// `1..=64`.
    pub fn update_map_params(&mut self, sub_index: u8, value: &Value) -> (r: Option<u16>)
        requires
            old(self).wf(),
        ensures
            r is None,
            final(self).mappings@.len() == old(self).mappings@.len(),
            final(self).cob_id == old(self).cob_id,
            final(self).is_pdo_valid == old(self).is_pdo_valid,
            final(self).transmission_type == old(self).transmission_type,
            final(self).event_timer == old(self).event_timer,
            final(self).total_length == old(self).total_length,
            final(self).cached_data == old(self).cached_data,
            final(self).inhibit_time == old(self).inhibit_time,
            final(self).largest_sub_index == old(self).largest_sub_index,
            sub_index == 0 ==> final(self).num_of_map_objs as nat == uint_of(value@, 1) && final(self).mappings == old(self).mappings,
            sub_index != 0 ==> final(self).num_of_map_objs == old(self).num_of_map_objs,
            1 <= sub_index <= 64 ==> final(self).mappings@ == old(self).mappings@.update(
                sub_index - 1,
                ((uint_of(value@, 4) / 0x1_0000) as u16, ((uint_of(value@, 4) / 0x100) % 0x100) as u8, (uint_of(value@, 4) % 0x100) as u8),
            ),
            sub_index > 64 ==> final(self).mappings == old(self).mappings,
    {
        proof {
            lemma_uint_fits(value@);
        }
        if sub_index == 0 {
            self.num_of_map_objs = value.to::<u8>();
        } else if sub_index <= MAX_PDO_MAPPING_LENGTH {
            let t: u32 = value.to::<u32>();
            let si = (sub_index - 1) as usize;
            self.mappings.set(si, ((t / 0x1_0000) as u16, ((t / 0x100) % 0x100) as u8, (t % 0x100) as u8));
        }
        None
    }
}

/// The COB-ID to slot table: a hashbrown map that the library reads and
/// updates through the wrappers below.
#[verifier::external_body]
pub struct CobTable {
    map: hashbrown::HashMap<u16, usize>,
}

/// The entries of a COB-ID table.
pub uninterp spec fn cob_entries(t: CobTable) -> Map<u16, usize>;

impl CobTable {
    /// Relies on hashbrown::HashMap::new: the map starts empty.
    #[verifier::external_body]
    pub fn new() -> (r: CobTable)
        ensures
            forall|c: u16| !cob_entries(r).contains_key(c),
    {
        CobTable { map: hashbrown::HashMap::new() }
    }

    /// Relies on hashbrown::HashMap::insert: afterwards the key maps to the
    /// value and the other entries stay.
    #[verifier::external_body]
    pub fn insert(&mut self, cob_id: u16, slot: usize)
        ensures
            cob_entries(*final(self)) == cob_entries(*old(self)).insert(cob_id, slot),
    {
        self.map.insert(cob_id, slot);
    }

    /// Relies on hashbrown::HashMap::remove: afterwards the key has no entry
    /// and the other entries stay.
    #[verifier::external_body]
    pub fn remove(&mut self, cob_id: u16)
        ensures
            cob_entries(*final(self)) == cob_entries(*old(self)).remove(cob_id),
    {
        self.map.remove(&cob_id);
    }

    /// Relies on hashbrown::HashMap::get: the value of the key's entry, if any.
    #[verifier::external_body]
    pub fn get(&self, cob_id: u16) -> (r: Option<usize>)
        ensures
            r == if cob_entries(*self).contains_key(cob_id) {
                Some(cob_entries(*self)[cob_id])
            } else {
                None::<usize>
            },
    {
        self.map.get(&cob_id).copied()
    }
}

/// The eight PDO slots, receive PDOs at 0..=3 and transmit PDOs at 4..=7,
/// with the table from COB-ID to slot.
pub struct PdoObjects {
    pub pdos: Vec<PdoObject>,
    pub cob_to_index: CobTable,
}

impl PdoObjects {
    /// Eight slots, each wf, with consistent lengths, and a table entry for a
    /// COB-ID only where that slot is valid under it.
    pub open spec fn wf(&self) -> bool {
        &&& self.pdos@.len() == 8
        &&& forall|i: int| 0 <= i < 8 ==> #[trigger] self.pdos@[i].wf() && self.pdos@[i].length_consistent()
        &&& forall|c: u16| #[trigger] cob_entries(self.cob_to_index).contains_key(c) ==> {
            let s = cob_entries(self.cob_to_index)[c];
            0 <= s < 8 && self.pdos@[s as int].is_pdo_valid && self.pdos@[s as int].cob_id == c
        }
        &&& forall|i: int| 0 <= i < 8 && (#[trigger] self.pdos@[i]).is_pdo_valid ==> cob_entries(self.cob_to_index).contains_key(self.pdos@[i].cob_id)
    }

    /// Enters slot `s` in the COB-ID table after its parameters changed,
    /// `old_cob` being the COB-ID it had: the entry of the old COB-ID moves
    /// to another valid slot with that COB-ID or goes, and a valid slot is
    /// entered under its COB-ID.
    fn register(&mut self, s: usize, old_cob: u16)
        requires
            old(self).pdos@.len() == 8,
            s < 8,
            forall|i: int| 0 <= i < 8 ==> #[trigger] old(self).pdos@[i].wf() && old(self).pdos@[i].length_consistent(),
            forall|c: u16| #[trigger] cob_entries(old(self).cob_to_index).contains_key(c) ==> {
                let t = cob_entries(old(self).cob_to_index)[c];
                0 <= t < 8 && (t != s ==> old(self).pdos@[t as int].is_pdo_valid && old(self).pdos@[t as int].cob_id == c)
                    && (t == s ==> c == old_cob)
            },
            forall|i: int| 0 <= i < 8 && i != s && (#[trigger] old(self).pdos@[i]).is_pdo_valid ==> cob_entries(old(self).cob_to_index).contains_key(old(self).pdos@[i].cob_id),
        ensures
            final(self).pdos == old(self).pdos,
            final(self).wf(),
            ({
                let p = final(self).pdos@[s as int];
                let m = cob_entries(final(self).cob_to_index);
                p.is_pdo_valid <==> (m.contains_key(p.cob_id) && m[p.cob_id] == s)
            }),
            forall|c: u16| c != old_cob && c != final(self).pdos@[s as int].cob_id ==> (
                #[trigger] cob_entries(final(self).cob_to_index).contains_key(c) == cob_entries(old(self).cob_to_index).contains_key(c)
                && cob_entries(final(self).cob_to_index)[c] == cob_entries(old(self).cob_to_index)[c]),
    {
        let ghost old_map = cob_entries(self.cob_to_index);
        match self.cob_to_index.get(old_cob) {
            Some(t) => if t == s {
                match self.other_valid_with(old_cob, s) {
                    Some(u) => self.cob_to_index.insert(old_cob, u),
                    None => self.cob_to_index.remove(old_cob),
                }
            },
            None => {},
        }
        if self.pdos[s].is_pdo_valid {
            let c = self.pdos[s].cob_id;
            self.cob_to_index.insert(c, s);
        }
        assert forall|i: int| 0 <= i < 8 && (#[trigger] self.pdos@[i]).is_pdo_valid implies cob_entries(self.cob_to_index).contains_key(self.pdos@[i].cob_id) by {
            if i != s {
                assert(old_map.contains_key(self.pdos@[i].cob_id));
            }
        }
        assert(forall|i: int| 0 <= i < 8 ==> #[trigger] self.pdos@[i].wf() && self.pdos@[i].length_consistent());
    }

    /// A valid slot other than `except` with COB-ID `cob`.
    fn other_valid_with(&self, cob: u16, except: usize) -> (r: Option<usize>)
        requires
            self.pdos@.len() == 8,
        ensures
            r matches Some(t) ==> t < 8 && t != except && self.pdos@[t as int].is_pdo_valid && self.pdos@[t as int].cob_id == cob,
            r is None ==> forall|t: int| 0 <= t < 8 && t != except ==> !((#[trigger] self.pdos@[t]).is_pdo_valid && self.pdos@[t].cob_id == cob),
    {
        let mut t: usize = 0;
        while t < 8
            invariant
                t <= 8,
                self.pdos@.len() == 8,
                forall|u: int| 0 <= u < t && u != except ==> !((#[trigger] self.pdos@[u]).is_pdo_valid && self.pdos@[u].cob_id == cob),
            decreases 8 - t,
        {
            if t != except && self.pdos[t].is_pdo_valid && self.pdos[t].cob_id == cob {
                return Some(t);
            }
            t = t + 1;
        }
        None
    }

    pub fn new() -> (r: Self)
        ensures
            r.wf(),
            forall|i: int| 0 <= i < 8 ==> !(#[trigger] r.pdos@[i]).is_pdo_valid,
            forall|i: int| 0 <= i < 8 ==> (#[trigger] r.pdos@[i]).is_default(),
    {
        let mut pdos: Vec<PdoObject> = Vec::new();
        let mut i: usize = 0;
        while i < 8
            invariant
                i <= 8,
                pdos@.len() == i,
                forall|j: int| 0 <= j < i ==> (#[trigger] pdos@[j]).wf() && pdos@[j].length_consistent() && !pdos@[j].is_pdo_valid && pdos@[j].is_default(),
            decreases 8 - i,
        {
            pdos.push(PdoObject::new_default());
            i = i + 1;
        }
        PdoObjects { pdos, cob_to_index: CobTable::new() }
    }

    /// The receive slot registered under `cob_id`.
    pub fn rpdo_slot(&self, cob_id: u16) -> (r: Result<usize, ErrorCode>)
        requires
            self.wf(),
        ensures
            r matches Ok(s) ==> s < 4 && cob_entries(self.cob_to_index).contains_key(cob_id) && cob_entries(self.cob_to_index)[cob_id] == s,
            r matches Err(e) ==> !(cob_entries(self.cob_to_index).contains_key(cob_id) && cob_entries(self.cob_to_index)[cob_id] < 4),
    {
        match self.cob_to_index.get(cob_id) {
            Some(s) => if s < 4 {
                Ok(s)
            } else {
                Err(ErrorCode::NoCobIdInRpdo { cob_id })
            },
            None => Err(ErrorCode::NoCobIdInRpdo { cob_id }),
        }
    }

    /// The receive PDO registered under `cob_id`.
    pub fn get_mut_rpdo_with_cob_id(&mut self, cob_id: u16) -> (r: Result<&mut PdoObject, ErrorCode>)
        requires
            old(self).wf(),
        ensures
            r matches Ok(p) ==> cob_entries(old(self).cob_to_index).contains_key(cob_id) && *p == old(self).pdos@[cob_entries(old(self).cob_to_index)[cob_id] as int],
            r is Err ==> !(cob_entries(old(self).cob_to_index).contains_key(cob_id) && cob_entries(old(self).cob_to_index)[cob_id] < 4),
    {
        match self.rpdo_slot(cob_id) {
            Ok(s) => Ok(&mut self.pdos[s]),
            Err(e) => Err(e),
        }
    }
}


/// A PDO slot that is valid and fires.
pub open spec fn firing(p: PdoObject, is_sync: bool, node_start: bool, count: u32) -> bool {
    p.is_pdo_valid && spec_should_trigger(is_sync, node_start, p.transmission_type as u32, p.event_timer as u32, count)
}

/// Every one of the first `n` mapped entries resolves to a readable variable.
pub open spec fn mapped_readable(od: DirectoryView, mappings: Seq<(u16, u8, u8)>, n: nat) -> bool {
    forall|j: int| 0 <= j < n ==> ((#[trigger] spec_variable(od, mappings[j].0, mappings[j].1)) matches Ok(v) && v.access_type.read_access)
}

/// The (value, width) pair of a mapped entry: the big-endian value of the
/// first (at most) eight bytes of the variable, and the mapped width.
pub open spec fn mapped_pair(od: DirectoryView, m: (u16, u8, u8)) -> (u64, u8) {
    let b = spec_variable(od, m.0, m.1)->Ok_0.value;
    (be_value(b.subrange(0, min_nat(b.len(), 8) as int)) as u64, m.2)
}

/// The pairs of the first `n` mapped entries.
pub open spec fn mapped_pairs(od: DirectoryView, mappings: Seq<(u16, u8, u8)>, n: nat) -> Seq<(u64, u8)> {
    Seq::new(n, |j: int| mapped_pair(od, mappings[j]))
}

/// The frame of transmit slot `p`: on its COB-ID, the packing of its mapped
/// values in `ceil(total / 8)` bytes.
pub open spec fn tpdo_frame_ok(od: DirectoryView, p: PdoObject, f: CanFrame) -> bool {
    f.cob_id == p.cob_id && f.data@.len() == ceil8(p.total_length as nat)
        && f.data@ == spec_pack(mapped_pairs(od, p.mappings@, p.num_of_map_objs as nat))
}

/// `frames` are the frames of the transmit slots `4..k` that fire, in slot
/// order.
pub open spec fn tpdo_frames(od: DirectoryView, pdos: Seq<PdoObject>, k: int, frames: Seq<CanFrame>, is_sync: bool, node_start: bool, count: u32) -> bool
    decreases k,
{
    if k <= 4 {
        frames.len() == 0
    } else if firing(pdos[k - 1], is_sync, node_start, count) && slot_sendable(od, pdos[k - 1]) {
        frames.len() > 0 && tpdo_frame_ok(od, pdos[k - 1], frames.last())
            && tpdo_frames(od, pdos, k - 1, frames.drop_last(), is_sync, node_start, count)
    } else {
        tpdo_frames(od, pdos, k - 1, frames, is_sync, node_start, count)
    }
}

/// A transmit slot whose frame can be built: a standard COB-ID and readable
/// mapped entries.
pub open spec fn slot_sendable(od: DirectoryView, p: PdoObject) -> bool {
    p.cob_id <= 0x7FF && mapped_readable(od, p.mappings@, p.num_of_map_objs as nat)
}

/// A transmit pass: the outbox gains exactly the frames of the firing
/// transmit slots whose frames can be built.
pub open spec fn tpdo_pass(od: DirectoryView, pdos: PdoObjects, old_out: Seq<CanFrame>, new_out: Seq<CanFrame>, is_sync: bool, node_start: bool, count: u32) -> bool {
    new_out.len() >= old_out.len() && new_out.subrange(0, old_out.len() as int) == old_out
        && tpdo_frames(od, pdos.pdos@, 8, new_out.subrange(old_out.len() as int, new_out.len() as int), is_sync, node_start, count)
}


/// The dictionary after a fitting-size write of `data` to `(index, sub)`:
/// the variable's size in bytes of `data` when it exists, is writable and
/// `data` is long enough; otherwise only the access.
pub open spec fn fitting_write(od: DirectoryView, index: u16, sub: u8, data: Seq<u8>) -> DirectoryView {
    match spec_variable(od, index, sub) {
        Ok(v) => if v.access_type.write_access && v.data_type.spec_size() <= data.len() {
            crate::object_directory::od_with_value(crate::object_directory::od_after_access(od, index, sub), index, sub, data.subrange(0, v.data_type.spec_size() as int))
        } else {
            crate::object_directory::od_after_access(od, index, sub)
        },
        Err(_) => crate::object_directory::od_after_access(od, index, sub),
    }
}

/// The dictionary after the first `k` unpacked fields are written to their
/// mapped entries, each as the eight little-endian bytes of the field.
pub open spec fn field_writes(od: DirectoryView, mappings: Seq<(u16, u8, u8)>, fields: Seq<(u64, u8)>, k: nat) -> DirectoryView
    decreases k,
{
    if k == 0 {
        od
    } else {
        fitting_write(
            field_writes(od, mappings, fields, (k - 1) as nat),
            mappings[k - 1].0,
            mappings[k - 1].1,
            crate::util::le_bytes(fields[k - 1].0 as nat, 8),
        )
    }
}

/// The widths of the first `n` mappings.
pub open spec fn mapped_widths(mappings: Seq<(u16, u8, u8)>, n: nat) -> Seq<u8> {
    Seq::new(n, |j: int| mappings[j].2)
}

/// The dictionary after the receive slots `0..k` that fire and hold data
/// are committed: their payloads unpacked by the mapped widths and each
/// field written to its entry.
pub open spec fn rpdo_commit(od: DirectoryView, pdos: Seq<PdoObject>, k: nat, is_sync: bool, node_start: bool, count: u32) -> DirectoryView
    decreases k,
{
    if k == 0 {
        od
    } else {
        let prev = rpdo_commit(od, pdos, (k - 1) as nat, is_sync, node_start, count);
        let p = pdos[k - 1];
        if firing(p, is_sync, node_start, count) && p.cached_data@.len() > 0 {
            let n = p.num_of_map_objs as nat;
            let fields = spec_unpack_bytes(p.cached_data@, mapped_widths(p.mappings@, n));
            field_writes(prev, p.mappings@, fields, min_nat(n, fields.len()))
        } else {
            prev
        }
    }
}


/// The value of the readable variable at `(index, sub)`, if any.
pub open spec fn readable_value(od: DirectoryView, index: u16, sub: u8) -> Option<Seq<u8>> {
    match spec_variable(od, index, sub) {
        Ok(v) => if v.access_type.read_access {
            Some(v.value)
        } else {
            None
        },
        Err(_) => None,
    }
}

/// Sub-index `q` of parameter object `index` is read when its slot is
/// derived: the count at sub-index 0 is readable, `q` is in `1..=count`, and
/// the entry is readable.
pub open spec fn listed(od: DirectoryView, index: u16, q: int, upto: int) -> bool {
    &&& readable_value(od, index, 0) matches Some(v0)
    &&& 1 <= q <= uint_of(v0, 1)
    &&& q < upto
    &&& 0 <= q <= 255
    &&& readable_value(od, index, q as u8) is Some
}

/// The value read for sub-index `q`.
pub open spec fn listed_value(od: DirectoryView, index: u16, q: int) -> Seq<u8> {
    readable_value(od, index, q as u8)->Some_0
}

/// The mapping entry that a 32-bit mapping value stands for.
pub open spec fn decode_mapping(t: nat) -> (u16, u8, u8) {
    ((t / 0x1_0000) as u16, ((t / 0x100) % 0x100) as u8, (t % 0x100) as u8)
}

/// The communication fields of `p` are those of `p0` updated with the
/// entries of communication object `index` read before sub-index `upto`.
pub open spec fn comm_upto(od: DirectoryView, index: u16, p0: PdoObject, p: PdoObject, upto: int) -> bool {
    &&& (listed(od, index, 1, upto) ==> p.is_pdo_valid == (uint_of(listed_value(od, index, 1), 4) < 0x8000_0000)
        && p.cob_id as nat == uint_of(listed_value(od, index, 1), 4) % 0x1_0000)
    &&& (!listed(od, index, 1, upto) ==> p.is_pdo_valid == p0.is_pdo_valid && p.cob_id == p0.cob_id)
    &&& (listed(od, index, 2, upto) ==> p.transmission_type as nat == uint_of(listed_value(od, index, 2), 1))
    &&& (!listed(od, index, 2, upto) ==> p.transmission_type == p0.transmission_type)
    &&& (listed(od, index, 3, upto) ==> p.inhibit_time as nat == uint_of(listed_value(od, index, 3), 2))
    &&& (!listed(od, index, 3, upto) ==> p.inhibit_time == p0.inhibit_time)
    &&& (listed(od, index, 5, upto) ==> p.event_timer as nat == uint_of(listed_value(od, index, 5), 2))
    &&& (!listed(od, index, 5, upto) ==> p.event_timer == p0.event_timer)
}

/// The communication fields of `p` are derived from object `index`.
pub open spec fn comm_from(od: DirectoryView, index: u16, p0: PdoObject, p: PdoObject) -> bool {
    &&& comm_upto(od, index, p0, p, 256)
    &&& (readable_value(od, index, 0) matches Some(v0) ==> p.largest_sub_index as nat == uint_of(v0, 1))
    &&& (readable_value(od, index, 0) is None ==> p.largest_sub_index == p0.largest_sub_index)
}

/// The mapping entries of `p` are those of `p0` updated with the entries of
/// mapping object `index` read before sub-index `upto`.
pub open spec fn map_upto(od: DirectoryView, index: u16, p0: PdoObject, p: PdoObject, upto: int) -> bool {
    &&& p.mappings@.len() == p0.mappings@.len()
    &&& forall|q: int| 1 <= q <= 64 ==> #[trigger] p.mappings@[q - 1] == if listed(od, index, q, upto) {
        decode_mapping(uint_of(listed_value(od, index, q), 4))
    } else {
        p0.mappings@[q - 1]
    }
}

/// The mapping fields of `p` are derived from object `index`.
pub open spec fn map_from(od: DirectoryView, index: u16, p0: PdoObject, p: PdoObject) -> bool {
    &&& map_upto(od, index, p0, p, 256)
    &&& (readable_value(od, index, 0) matches Some(v0) ==> p.num_of_map_objs as nat == uint_of(v0, 1))
    &&& (readable_value(od, index, 0) is None ==> p.num_of_map_objs == p0.num_of_map_objs)
}

pub open spec fn comm_same(p0: PdoObject, p: PdoObject) -> bool {
    &&& p.is_pdo_valid == p0.is_pdo_valid
    &&& p.cob_id == p0.cob_id
    &&& p.transmission_type == p0.transmission_type
    &&& p.inhibit_time == p0.inhibit_time
    &&& p.event_timer == p0.event_timer
    &&& p.largest_sub_index == p0.largest_sub_index
}

pub open spec fn map_same(p0: PdoObject, p: PdoObject) -> bool {
    &&& p.num_of_map_objs == p0.num_of_map_objs
    &&& p.mappings@ == p0.mappings@
}


/// The communication object of slot `s`: `0x1400 + s` for a receive PDO,
/// `0x1800 + (s - 4)` for a transmit PDO.
pub open spec fn comm_index(s: int) -> u16 {
    (0x1400 + (s % 4) + if s >= 4 { 0x400int } else { 0int }) as u16
}

/// The mapping object of slot `s`: its communication object plus 0x200.
pub open spec fn map_index(s: int) -> u16 {
    (comm_index(s) + 0x200) as u16
}

/// Slot `p` is `p0` with its communication fields derived from its
/// communication object and its mapping fields from its mapping object.
pub open spec fn slot_derived(od: DirectoryView, s: int, p0: PdoObject, p: PdoObject) -> bool {
    comm_from(od, comm_index(s), p0, p) && map_from(od, map_index(s), p0, p)
}

/// Slot `p` is a default slot with its fields derived from its parameter
/// objects.
pub open spec fn derived_from_default(od: DirectoryView, s: int, p: PdoObject) -> bool {
    exists|p0: PdoObject| p0.is_default() && #[trigger] slot_derived(od, s, p0, p)
}

/// Pass `pass` at position `pos` is done when the derivation has reached
/// pass `b`, position `j`.
pub open spec fn pass_done(pass: int, pos: int, b: int, j: int) -> bool {
    pass < b || (pass == b && pos < j)
}

/// The derivation of slot `s` after the passes before `(b, j)`: pass 0 and
/// 2 derive communication objects, 1 and 3 mapping objects.
pub open spec fn slot_progress(od: DirectoryView, s: int, p0: PdoObject, p: PdoObject, b: int, j: int) -> bool {
    let cp = if s >= 4 { 2int } else { 0int };
    &&& (pass_done(cp, s % 4, b, j) ==> comm_from(od, comm_index(s), p0, p))
    &&& (!pass_done(cp, s % 4, b, j) ==> comm_same(p0, p))
    &&& (pass_done(cp + 1, s % 4, b, j) ==> map_from(od, map_index(s), p0, p))
    &&& (!pass_done(cp + 1, s % 4, b, j) ==> map_same(p0, p))
}

proof fn lemma_param_index(b: int, j: int)
    requires
        0 <= b < 4,
        0 <= j < 4,
    ensures
        ({
            let idx = (0x1400 + b * 0x200 + j) as u16;
            let s = j + if b >= 2 { 4int } else { 0int };
            &&& pdo_slot(idx) == Some(s)
            &&& is_comm_param(idx) == (b % 2 == 0)
            &&& (b % 2 == 0 ==> comm_index(s) == idx)
            &&& (b % 2 == 1 ==> map_index(s) == idx)
            &&& (if s >= 4 { 2int } else { 0int }) + b % 2 == b
            &&& s % 4 == j
        }),
{
    if b == 0 {
    } else if b == 1 {
    } else if b == 2 {
    } else {
    }
}

/// The slot of a PDO parameter object: `(index & 0xF)`, plus 4 for the
/// transmit PDOs at `0x1800..`; only `0x1400..=0x1BFF` with a low nibble
/// below 4 has one.
pub open spec fn pdo_slot(index: u16) -> Option<int> {
    let t = index / 0x100;
    let p = index % 0x10;
    if 0x14 <= t < 0x1C && p < 4 {
        Some(p + if t >= 0x18 { 4int } else { 0int })
    } else {
        None
    }
}

/// Whether a PDO parameter object holds communication parameters
/// (`0x14xx`, `0x15xx`, `0x18xx`, `0x19xx`) rather than mappings.
pub open spec fn is_comm_param(index: u16) -> bool {
    (index / 0x100) % 4 < 2
}

fn pdo_slot_exec(index: u16) -> (r: Option<usize>)
    ensures
        r matches Some(s) ==> pdo_slot(index) == Some(s as int) && s < 8,
        r is None ==> pdo_slot(index) is None,
{
    let t = index / 0x100;
    let p = index % 0x10;
    if 0x14 <= t && t < 0x1C && p < 4 {
        Some((p as usize) + if t >= 0x18 { 4 } else { 0 })
    } else {
        None
    }
}

fn calculate_total_length(mappings: &Vec<(u16, u8, u8)>, n: u8) -> (r: u32)
    requires
        n as nat <= mappings@.len(),
    ensures
        r as nat == mapped_bits(mappings@, n as nat),
{
    let mut sum: u32 = 0;
    let mut k: u8 = 0;
    while k < n
        invariant
            k <= n,
            n as nat <= mappings@.len(),
            sum as nat == mapped_bits(mappings@, k as nat),
            sum <= 255 * k as u32,
        decreases n - k,
    {
        sum = sum + (mappings[k as usize].2 as u32);
        k = k + 1;
    }
    sum
}

proof fn lemma_mapped_bits_frame(mappings: Seq<(u16, u8, u8)>, n: nat, pairs: Seq<(u64, u8)>)
    requires
        n <= mappings.len(),
        pairs.len() == n,
        forall|k: int| 0 <= k < n ==> #[trigger] pairs[k].1 == mappings[k].2,
    ensures
        bits_total(pairs) == mapped_bits(mappings, n),
    decreases n,
{
    if n > 0 {
        lemma_mapped_bits_frame(mappings, (n - 1) as nat, pairs.drop_last());
    }
}

impl Node {
    /// Re-derives the PDO slot that a written parameter belongs to. A
    /// communication parameter updates the slot, and a new COB-ID at
    /// sub-index 1 moves its registration; a mapping parameter updates the
    /// mapping and the total length, after checking at sub-index 0 that the
    /// mapped objects exist. Mappings over 64 bits are refused and leave the
    /// slot as it was.
    #[verifier::spinoff_prover]
    pub fn update(&mut self, var: &Variable) -> (r: Result<(), ErrorCode>)
        requires
            old(self).wf(),
        ensures
            final(self).wf(),
            final(self).backup_od == old(self).backup_od,
            final(self).outbox == old(self).outbox,
            final(self).state == old(self).state,
            final(self).node_id == old(self).node_id,
            final(self).sdo_state == old(self).sdo_state,
            final(self).keeps_counters(old(self)),
            final(self).object_directory@.node_id == old(self).object_directory@.node_id,
            final(self).object_directory == old(self).object_directory,
            r matches Err(e) ==> crate::object_directory::is_abort(e, AbortCode::ExceedPDOSize)
                || crate::object_directory::is_abort(e, AbortCode::ObjectCannotBeMappedToPDO),
            pdo_slot(var.index) is None ==> r is Ok && final(self).pdo_objects == old(self).pdo_objects,
            pdo_slot(var.index) matches Some(s) ==> ({
                let o = old(self).pdo_objects.pdos@[s];
                let p = final(self).pdo_objects.pdos@[s];
                let m = cob_entries(final(self).pdo_objects.cob_to_index);
                let m0 = cob_entries(old(self).pdo_objects.cob_to_index);
                let v = var.default_value@;
                let t = uint_of(v, 4);
                &&& p.total_length as nat == mapped_bits(p.mappings@, p.num_of_map_objs as nat)
                &&& (p.is_pdo_valid <==> (m.contains_key(p.cob_id) && m[p.cob_id] == s))
                &&& (forall|i: int| 0 <= i < 8 && i != s ==> #[trigger] final(self).pdo_objects.pdos@[i] == old(self).pdo_objects.pdos@[i])
                &&& (forall|c: u16| c != o.cob_id && c != p.cob_id ==> (#[trigger] m.contains_key(c) == m0.contains_key(c) && m[c] == m0[c]))
                &&& (is_comm_param(var.index) ==> r is Ok && p.mappings == o.mappings && p.num_of_map_objs == o.num_of_map_objs
                    && p.total_length == o.total_length && p.cached_data == o.cached_data
                    && (var.sub_index == 0 ==> p.largest_sub_index as nat == uint_of(v, 1))
                    && (var.sub_index == 1 ==> p.is_pdo_valid == (t < 0x8000_0000) && p.cob_id as nat == t % 0x1_0000)
                    && (var.sub_index != 1 ==> p.is_pdo_valid == o.is_pdo_valid && p.cob_id == o.cob_id)
                    && (var.sub_index == 2 ==> p.transmission_type as nat == uint_of(v, 1))
                    && (var.sub_index != 2 ==> p.transmission_type == o.transmission_type)
                    && (var.sub_index == 3 ==> p.inhibit_time as nat == uint_of(v, 2))
                    && (var.sub_index == 5 ==> p.event_timer as nat == uint_of(v, 2))
                    && (var.sub_index != 5 ==> p.event_timer == o.event_timer)
                    && (var.sub_index != 3 ==> p.inhibit_time == o.inhibit_time)
                    && (var.sub_index != 0 ==> p.largest_sub_index == o.largest_sub_index))
                &&& (!is_comm_param(var.index) ==> p.is_pdo_valid == o.is_pdo_valid && p.cob_id == o.cob_id
                    && p.transmission_type == o.transmission_type && p.event_timer == o.event_timer
                    && p.inhibit_time == o.inhibit_time && p.cached_data == o.cached_data
                    && p.largest_sub_index == o.largest_sub_index
                    && (r is Ok && var.sub_index > 64 ==> p.num_of_map_objs == o.num_of_map_objs && p.mappings@ == o.mappings@)
                    && (r is Ok && var.sub_index == 0 ==> p.num_of_map_objs as nat == uint_of(v, 1) && p.mappings == o.mappings)
                    && (r is Ok && 1 <= var.sub_index <= 64 ==> p.num_of_map_objs == o.num_of_map_objs && p.mappings@ == o.mappings@.update(
                        var.sub_index - 1,
                        ((t / 0x1_0000) as u16, ((t / 0x100) % 0x100) as u8, (t % 0x100) as u8),
                    ))
                    && (r is Err ==> p.num_of_map_objs == o.num_of_map_objs && p.mappings@ == o.mappings@ && p.total_length == o.total_length))
            }),
    {
        let slot = match pdo_slot_exec(var.index) {
            None => return Ok(()),
            Some(s) => s,
        };
        assert(self.pdo_objects.pdos@[slot as int].wf());
        assert(self.pdo_objects.pdos@[slot as int].length_consistent());
        let old_cob = self.pdo_objects.pdos[slot].cob_id;
        let ghost old_pdos = self.pdo_objects;
        let kind = var.index / 0x100;
        let res = if kind % 4 < 2 {
            self.pdo_objects.pdos[slot].update_comm_params(var.sub_index, &var.default_value);
            Ok(())
        } else {
            let ghost pre = self.pdo_objects.pdos@[slot as int];
            let old_num = self.pdo_objects.pdos[slot].num_of_map_objs;
            let old_entry = if 1 <= var.sub_index && var.sub_index <= MAX_PDO_MAPPING_LENGTH {
                self.pdo_objects.pdos[slot].mappings[(var.sub_index - 1) as usize]
            } else {
                (0, 0, 0)
            };
            self.pdo_objects.pdos[slot].update_map_params(var.sub_index, &var.default_value);
            let n = self.pdo_objects.pdos[slot].num_of_map_objs;
            let mut failure: Option<ErrorCode> = None;
            if n > MAX_PDO_MAPPING_LENGTH {
                failure = Some(make_abort_error(AbortCode::ExceedPDOSize, String::new()));
            } else {
                if var.sub_index == 0 {
                    let ghost pdo_snap = self.pdo_objects;
                    let mut k: u8 = 0;
                    while k < n
                        invariant
                            k <= n <= MAX_PDO_MAPPING_LENGTH,
                            self.pdo_objects.pdos@.len() == 8,
                            slot < 8,
                            self.pdo_objects.pdos@[slot as int].mappings@.len() == MAX_PDO_MAPPING_LENGTH,
                            self.pdo_objects == pdo_snap,
                            failure is None || crate::object_directory::is_abort(failure->Some_0, AbortCode::ObjectCannotBeMappedToPDO),
                            self.backup_od == old(self).backup_od,
                            self.outbox == old(self).outbox,
                            self.state == old(self).state,
                            self.node_id == old(self).node_id,
                            self.sdo_state == old(self).sdo_state,
                            self.object_directory@.node_id == old(self).object_directory@.node_id,
                            self.object_directory == old(self).object_directory,
                            self.keeps_counters(old(self)),
                        decreases n - k,
                    {
                        let (mi, msi, _) = self.pdo_objects.pdos[slot].mappings[k as usize];
                        if self.object_directory.peek_variable(mi, msi).is_err() {
                            failure = Some(make_abort_error(AbortCode::ObjectCannotBeMappedToPDO, String::new()));
                            break;
                        }
                        k = k + 1;
                    }
                }
                if failure.is_none() {
                    let total = calculate_total_length(&self.pdo_objects.pdos[slot].mappings, n);
                    if total > MAX_PDO_MAPPING_LENGTH as u32 {
                        failure = Some(make_abort_error(AbortCode::ExceedPDOSize, String::new()));
                    } else {
                        self.pdo_objects.pdos[slot].total_length = total as u8;
                    }
                }
            }
            match failure {
                Some(e) => {
                    self.pdo_objects.pdos[slot].num_of_map_objs = old_num;
                    if 1 <= var.sub_index && var.sub_index <= MAX_PDO_MAPPING_LENGTH {
                        self.pdo_objects.pdos[slot].mappings.set((var.sub_index - 1) as usize, old_entry);
                    }
                    assert(self.pdo_objects.pdos@[slot as int].mappings@ =~= pre.mappings@);
                    Err(e)
                },
                None => Ok(()),
            }
        };
        assert(forall|i: int| 0 <= i < 8 && i != slot ==> self.pdo_objects.pdos@[i] == old(self).pdo_objects.pdos@[i]);
        assert(self.pdo_objects.pdos@[slot as int].wf());
        assert(self.pdo_objects.pdos@[slot as int].length_consistent());
        assert(forall|i: int| 0 <= i < 8 ==> #[trigger] self.pdo_objects.pdos@[i].wf() && self.pdo_objects.pdos@[i].length_consistent());
        assert(old_pdos.wf());
        assert forall|i: int| 0 <= i < 8 && i != slot && (#[trigger] self.pdo_objects.pdos@[i]).is_pdo_valid implies cob_entries(self.pdo_objects.cob_to_index).contains_key(self.pdo_objects.pdos@[i].cob_id) by {
            assert(self.pdo_objects.pdos@[i] == old_pdos.pdos@[i]);
        }
        self.pdo_objects.register(slot, old_cob);
        res
    }
}

impl Node {
    /// Derives the slot of PDO parameter object `index` from the dictionary:
    /// the entries `1..=count` first, then the count at sub-index 0.
    #[verifier::spinoff_prover]
    #[verifier::rlimit(60)]
    fn derive_object(&mut self, index: u16) -> (r: Result<(), ErrorCode>)
        requires
            old(self).wf(),
            pdo_slot(index) is Some,
        ensures
            final(self).wf(),
            final(self).backup_od == old(self).backup_od,
            final(self).outbox == old(self).outbox,
            final(self).keeps_counters(old(self)),
            final(self).object_directory == old(self).object_directory,
            r matches Err(e) ==> crate::object_directory::is_abort(e, AbortCode::ExceedPDOSize)
                || crate::object_directory::is_abort(e, AbortCode::ObjectCannotBeMappedToPDO),
            ({
                let s = pdo_slot(index)->Some_0;
                let od = old(self).object_directory@;
                let p0 = old(self).pdo_objects.pdos@[s];
                let p = final(self).pdo_objects.pdos@[s];
                &&& forall|i: int| 0 <= i < 8 && i != s ==> #[trigger] final(self).pdo_objects.pdos@[i] == old(self).pdo_objects.pdos@[i]
                &&& (r is Ok && is_comm_param(index) ==> comm_from(od, index, p0, p) && map_same(p0, p))
                &&& (r is Ok && !is_comm_param(index) ==> map_from(od, index, p0, p) && comm_same(p0, p))
            }),
    {
        let ghost s = pdo_slot(index)->Some_0;
        let ghost od = self.object_directory@;
        let ghost p0 = self.pdo_objects.pdos@[s];
        let var0 = match self.read_parameter(index, 0) {
            Some(v) => v,
            None => {
                assert(forall|q: int| !listed(od, index, q, 256));
                return Ok(());
            },
        };
        proof {
            lemma_uint_fits(var0.default_value@);
        }
        let len: u8 = var0.default_value.to::<u8>();
        assert(len as nat == uint_of(readable_value(od, index, 0)->Some_0, 1));
        let mut k: u16 = 1;
        while k <= len as u16
            invariant
                1 <= k <= len as u16 + 1,
                len as nat == uint_of(readable_value(od, index, 0)->Some_0, 1),
                readable_value(od, index, 0) is Some,
                pdo_slot(index) == Some(s),
                0 <= s < 8,
                self.wf(),
                od == self.object_directory@,
                p0 == old(self).pdo_objects.pdos@[s],
                self.backup_od == old(self).backup_od,
                self.outbox == old(self).outbox,
                self.keeps_counters(old(self)),
                self.object_directory == old(self).object_directory,
                forall|i: int| 0 <= i < 8 && i != s ==> #[trigger] self.pdo_objects.pdos@[i] == old(self).pdo_objects.pdos@[i],
                is_comm_param(index) ==> comm_upto(od, index, p0, self.pdo_objects.pdos@[s], k as int) && map_same(p0, self.pdo_objects.pdos@[s])
                    && self.pdo_objects.pdos@[s].largest_sub_index == p0.largest_sub_index,
                !is_comm_param(index) ==> map_upto(od, index, p0, self.pdo_objects.pdos@[s], k as int) && comm_same(p0, self.pdo_objects.pdos@[s])
                    && self.pdo_objects.pdos@[s].num_of_map_objs == p0.num_of_map_objs,
            decreases len as u16 + 1 - k,
        {
            assert(self.pdo_objects.pdos@[s].wf());
            let ghost before = self.pdo_objects.pdos@[s];
            proof {
                assert(listed(od, index, 1, k + 1) == (listed(od, index, 1, k as int) || (k == 1 && listed(od, index, 1, k + 1))));
                assert(listed(od, index, 2, k + 1) == (listed(od, index, 2, k as int) || (k == 2 && listed(od, index, 2, k + 1))));
                assert(listed(od, index, 3, k + 1) == (listed(od, index, 3, k as int) || (k == 3 && listed(od, index, 3, k + 1))));
                assert(listed(od, index, 5, k + 1) == (listed(od, index, 5, k as int) || (k == 5 && listed(od, index, 5, k + 1))));
            }
            match self.read_parameter(index, k as u8) {
                Some(sv) => {
                    let mut w = sv;
                    w.index = index;
                    w.sub_index = k as u8;
                    let res = self.update(&w);
                    if res.is_err() {
                        return res;
                    }
                    proof {
                        let t = uint_of(w.default_value@, 4);
                        if !is_comm_param(index) {
                            if k <= 64 {
                                assert(self.pdo_objects.pdos@[s].mappings@ == before.mappings@.update(k - 1, decode_mapping(t)));
                            } else {
                                assert(self.pdo_objects.pdos@[s].mappings@ == before.mappings@);
                            }
                        }
                        assert(listed(od, index, k as int, k + 1));
                        assert(listed_value(od, index, k as int) == w.default_value@);
                        assert forall|q: int| 1 <= q <= 64 && !is_comm_param(index) implies #[trigger] self.pdo_objects.pdos@[s].mappings@[q - 1] == if listed(od, index, q, k + 1) {
                            decode_mapping(uint_of(listed_value(od, index, q), 4))
                        } else {
                            p0.mappings@[q - 1]
                        } by {
                            if !is_comm_param(index) {
                                let old_q = before.mappings@[q - 1];
                                assert(old_q == if listed(od, index, q, k as int) {
                                    decode_mapping(uint_of(listed_value(od, index, q), 4))
                                } else {
                                    p0.mappings@[q - 1]
                                });
                                if k <= 64 {
                                    assert(self.pdo_objects.pdos@[s].mappings@ == before.mappings@.update(k - 1, decode_mapping(uint_of(w.default_value@, 4))));
                                } else {
                                    assert(self.pdo_objects.pdos@[s].mappings@ == before.mappings@);
                                }
                                assert(before.mappings@.len() == 64);
                                if q != k {
                                    assert(listed(od, index, q, k + 1) == listed(od, index, q, k as int));
                                    assert(self.pdo_objects.pdos@[s].mappings@[q - 1] == old_q);
                                } else {
                                    assert(self.pdo_objects.pdos@[s].mappings@[q - 1] == decode_mapping(uint_of(w.default_value@, 4)));
                                }
                            }
                        }
                    }
                },
                None => {
                    proof {
                        assert(!listed(od, index, k as int, k + 1));
                        assert forall|q: int| 1 <= q <= 64 && !is_comm_param(index) implies #[trigger] self.pdo_objects.pdos@[s].mappings@[q - 1] == if listed(od, index, q, k + 1) {
                            decode_mapping(uint_of(listed_value(od, index, q), 4))
                        } else {
                            p0.mappings@[q - 1]
                        } by {
                            let old_q = before.mappings@[q - 1];
                            assert(old_q == if listed(od, index, q, k as int) {
                                decode_mapping(uint_of(listed_value(od, index, q), 4))
                            } else {
                                p0.mappings@[q - 1]
                            });
                            assert(listed(od, index, q, k + 1) == listed(od, index, q, k as int));
                        }
                    }
                },
            }
            k = k + 1;
        }
        proof {
            assert(forall|q: int| #[trigger] listed(od, index, q, k as int) == listed(od, index, q, 256));
        }
        let mut w0 = var0;
        w0.index = index;
        w0.sub_index = 0;
        self.update(&w0)
    }
}

impl Node {
    /// The readable variable at `(index, sub_index)`, read without changing
    /// the dictionary.
    fn read_parameter(&self, index: u16, sub_index: u8) -> (r: Option<Variable>)
        ensures
            r matches Some(v) ==> (spec_variable(self.object_directory@, index, sub_index) matches Ok(w) && w.access_type.read_access && v@ == w),
            r is None ==> !(spec_variable(self.object_directory@, index, sub_index) matches Ok(w) && w.access_type.read_access),
    {
        match self.object_directory.peek_variable(index, sub_index) {
            Ok(v) => if v.access_type.is_readable() {
                Some(v)
            } else {
                None
            },
            Err(_) => None,
        }
    }

    /// Derives every PDO slot from the dictionary's parameter objects
    /// `0x1400..=0x1403`, `0x1600..`, `0x1800..` and `0x1A00..`: the
    /// sub-entries first, then the count at sub-index 0.
    #[verifier::spinoff_prover]
    pub fn update_pdo_params(&mut self) -> (r: Result<(), ErrorCode>)
        requires
            old(self).wf(),
        ensures
            final(self).wf(),
            final(self).backup_od == old(self).backup_od,
            final(self).outbox == old(self).outbox,
            final(self).state == old(self).state,
            final(self).node_id == old(self).node_id,
            final(self).sdo_state == old(self).sdo_state,
            final(self).object_directory@.node_id == old(self).object_directory@.node_id,
            final(self).keeps_counters(old(self)),
            final(self).object_directory == old(self).object_directory,
            r matches Err(e) ==> crate::object_directory::is_abort(e, AbortCode::ExceedPDOSize)
                || crate::object_directory::is_abort(e, AbortCode::ObjectCannotBeMappedToPDO),
            r is Ok ==> forall|s: int| 0 <= s < 8 ==> slot_derived(
                old(self).object_directory@,
                s,
                old(self).pdo_objects.pdos@[s],
                #[trigger] final(self).pdo_objects.pdos@[s],
            ),
    {
        let ghost od = self.object_directory@;
        let ghost p0 = self.pdo_objects.pdos@;
        let mut b: u16 = 0;
        while b < 4
            invariant
                b <= 4,
                self.wf(),
                self.backup_od == old(self).backup_od,
                self.outbox == old(self).outbox,
                self.keeps_counters(old(self)),
                self.object_directory == old(self).object_directory,
                od == old(self).object_directory@,
                p0 == old(self).pdo_objects.pdos@,
                forall|s: int| 0 <= s < 8 ==> slot_progress(od, s, p0[s], #[trigger] self.pdo_objects.pdos@[s], b as int, 0),
            decreases 4 - b,
        {
            let mut j: u16 = 0;
            while j < 4
                invariant
                    j <= 4,
                    b < 4,
                    self.wf(),
                    self.backup_od == old(self).backup_od,
                    self.outbox == old(self).outbox,
                    self.keeps_counters(old(self)),
                    self.object_directory == old(self).object_directory,
                    od == old(self).object_directory@,
                    p0 == old(self).pdo_objects.pdos@,
                    forall|s: int| 0 <= s < 8 ==> slot_progress(od, s, p0[s], #[trigger] self.pdo_objects.pdos@[s], b as int, j as int),
                decreases 4 - j,
            {
                let idx: u16 = 0x1400 + b * 0x200 + j;
                proof {
                    lemma_param_index(b as int, j as int);
                }
                let ghost prev = self.pdo_objects.pdos@;
                let res = self.derive_object(idx);
                if res.is_err() {
                    return res;
                }
                proof {
                    let s0 = pdo_slot(idx)->Some_0;
                    assert forall|s: int| 0 <= s < 8 implies slot_progress(od, s, p0[s], #[trigger] self.pdo_objects.pdos@[s], b as int, j + 1) by {
                        assert(slot_progress(od, s, p0[s], prev[s], b as int, j as int));
                        if s != s0 {
                            assert(self.pdo_objects.pdos@[s] == prev[s]);
                        }
                    }
                }
                j = j + 1;
            }
            proof {
                assert forall|s: int| 0 <= s < 8 implies slot_progress(od, s, p0[s], #[trigger] self.pdo_objects.pdos@[s], b + 1, 0) by {
                    assert(slot_progress(od, s, p0[s], self.pdo_objects.pdos@[s], b as int, 4));
                }
            }
            b = b + 1;
        }
        proof {
            assert forall|s: int| 0 <= s < 8 implies slot_derived(od, s, p0[s], #[trigger] self.pdo_objects.pdos@[s]) by {
                assert(slot_progress(od, s, p0[s], self.pdo_objects.pdos@[s], 4, 0));
            }
        }
        Ok(())
    }
}

impl Node {
    /// The frame of a transmit PDO: the current values of the first
    /// `num_of_map_objs` mapped objects, packed by `pack_data`. It carries
    /// exactly `ceil(total bit length / 8)` bytes.
    #[verifier::spinoff_prover]
    pub fn gen_pdo_frame(&mut self, cob_id: u16, num_of_map_objs: u8, mappings: &Vec<(u16, u8, u8)>) -> (r: Result<CanFrame, ErrorCode>)
        requires
            old(self).wf(),
            num_of_map_objs as nat <= mappings@.len(),
            mapped_bits(mappings@, num_of_map_objs as nat) <= 64,
        ensures
            final(self).wf(),
            final(self).backup_od == old(self).backup_od,
            final(self).object_directory == old(self).object_directory,
            final(self).pdo_objects == old(self).pdo_objects,
            final(self).outbox == old(self).outbox,
            final(self).state == old(self).state,
            final(self).node_id == old(self).node_id,
            final(self).sdo_state == old(self).sdo_state,
            final(self).keeps_counters(old(self)),
            r is Ok <==> (cob_id <= 0x7FF && mapped_readable(old(self).object_directory@, mappings@, num_of_map_objs as nat)),
            r matches Ok(f) ==> f.wf() && f.cob_id == cob_id && f.data@.len() == ceil8(mapped_bits(mappings@, num_of_map_objs as nat))
                && f.data@ == spec_pack(mapped_pairs(old(self).object_directory@, mappings@, num_of_map_objs as nat)),
            r matches Err(e) ==> (e is VariableNotFound || e is InvalidStandardId)
                && !(cob_id <= 0x7FF && mapped_readable(old(self).object_directory@, mappings@, num_of_map_objs as nat)),
    {
        let ghost od = self.object_directory@;
        let mut data_pairs: Vec<(u64, u8)> = Vec::new();
        let mut k: u8 = 0;
        assert(self.wf());
        while k < num_of_map_objs
            invariant
                k <= num_of_map_objs,
                num_of_map_objs as nat <= mappings@.len(),
                data_pairs@.len() == k,
                od == self.object_directory@,
                *self == *old(self),
                self.wf(),
                forall|j: int| 0 <= j < k ==> #[trigger] data_pairs@[j] == mapped_pair(od, mappings@[j]),
                forall|j: int| 0 <= j < k ==> ((#[trigger] spec_variable(od, mappings@[j].0, mappings@[j].1)) matches Ok(v) && v.access_type.read_access),
            decreases num_of_map_objs - k,
        {
            let (idx, sub_idx, bits) = mappings[k as usize];
            let variable = match self.object_directory.peek_variable(idx, sub_idx) {
                Ok(v) => v,
                Err(_) => {
                    assert(!mapped_readable(od, mappings@, num_of_map_objs as nat)) by {
                        assert(spec_variable(od, mappings@[k as int].0, mappings@[k as int].1) is Err);
                    }
                    return Err(ErrorCode::VariableNotFound { index: idx, sub_index: sub_idx });
                },
            };
            if !variable.access_type.is_readable() {
                assert(!mapped_readable(od, mappings@, num_of_map_objs as nat)) by {
                    assert(!spec_variable(od, mappings@[k as int].0, mappings@[k as int].1)->Ok_0.access_type.read_access);
                }
                return Err(ErrorCode::VariableNotFound { index: idx, sub_index: sub_idx });
            }
            let data = vec_to_u64(variable.default_value.as_slice());
            data_pairs.push((data, bits));
            k = k + 1;
        }
        assert(data_pairs@ =~= mapped_pairs(od, mappings@, num_of_map_objs as nat));
        proof {
            lemma_mapped_bits_frame(mappings@, num_of_map_objs as nat, data_pairs@);
        }
        let packet = pack_data(data_pairs.as_slice());
        assert(ceil8(bits_total(data_pairs@)) <= 8);
        create_frame(cob_id, packet.as_slice())
    }

    /// Sends the transmit PDOs (slots 4..=7) that are valid and fire; a slot
    /// whose frame cannot be built (a COB-ID over 11 bits, a mapped entry
    /// missing or unreadable) is skipped.
    #[verifier::spinoff_prover]
    pub fn transmit_pdo_messages(&mut self, is_sync: bool, event: NodeEvent, count: u32) -> (r: Result<(), ErrorCode>)
        requires
            old(self).wf(),
        ensures
            final(self).wf(),
            final(self).backup_od == old(self).backup_od,
            final(self).pdo_objects == old(self).pdo_objects,
            final(self).state == old(self).state,
            final(self).node_id == old(self).node_id,
            final(self).sdo_state == old(self).sdo_state,
            final(self).outbox@.len() >= old(self).outbox@.len(),
            final(self).outbox@.subrange(0, old(self).outbox@.len() as int) == old(self).outbox@,
            final(self).keeps_counters(old(self)),
            final(self).object_directory == old(self).object_directory,
            tpdo_pass(old(self).object_directory@, old(self).pdo_objects, old(self).outbox@, final(self).outbox@, is_sync, event == NodeEvent::NodeStart, count),
            r is Ok,
    {
        let mut index: usize = 4;
        let ghost base = self.outbox@.len();
        assert(self.outbox@.subrange(base as int, base as int) =~= Seq::<CanFrame>::empty());
        while index < 8
            invariant
                4 <= index <= 8,
                self.wf(),
                self.backup_od == old(self).backup_od,
                self.pdo_objects == old(self).pdo_objects,
                self.state == old(self).state,
                self.node_id == old(self).node_id,
                self.sdo_state == old(self).sdo_state,
                self.outbox@.len() >= old(self).outbox@.len(),
                self.outbox@.subrange(0, old(self).outbox@.len() as int) == old(self).outbox@,
                self.keeps_counters(old(self)),
                base == old(self).outbox@.len(),
                self.object_directory == old(self).object_directory,
                tpdo_frames(old(self).object_directory@, old(self).pdo_objects.pdos@, index as int, self.outbox@.subrange(base as int, self.outbox@.len() as int), is_sync, event == NodeEvent::NodeStart, count),
            decreases 8 - index,
        {
            assert(self.pdo_objects.wf());
            assert(self.pdo_objects.pdos@[index as int].wf());
            assert(self.pdo_objects.pdos@[index as int].length_consistent());
            let pdo = &self.pdo_objects.pdos[index];
            let fire = pdo.is_pdo_valid && should_trigger_pdo(is_sync, event == NodeEvent::NodeStart, pdo.transmission_type as u32, pdo.event_timer as u32, count);
            if fire {
                let cob = pdo.cob_id;
                let n = pdo.num_of_map_objs;
                let mappings = copy_mappings(&pdo.mappings);
                assert(self.pdo_objects.pdos@[index as int] == old(self).pdo_objects.pdos@[index as int]);
                match self.gen_pdo_frame(cob, n, &mappings) {
                    Ok(frame) => {
                        let ghost prev = self.outbox@;
                        let ghost fr = frame;
                        self.transmit(frame);
                        assert(self.outbox@.subrange(0, old(self).outbox@.len() as int) =~= prev.subrange(0, old(self).outbox@.len() as int));
                        assert(self.outbox@.subrange(base as int, self.outbox@.len() as int).drop_last() =~= prev.subrange(base as int, prev.len() as int));
                        assert(self.outbox@.subrange(base as int, self.outbox@.len() as int).last() == fr);
                    },
                    Err(_) => {},
                }
            }
            index = index + 1;
        }
        Ok(())
    }

    /// Writes the payloads cached by the receive PDOs (slots 0..=3) that are
    /// valid and fire into the dictionary, field by field, then clears them.
    #[verifier::spinoff_prover]
    pub fn save_rpdo_messages(&mut self, is_sync: bool, event: NodeEvent, count: u32)
        requires
            old(self).wf(),
        ensures
            final(self).wf(),
            final(self).backup_od == old(self).backup_od,
            final(self).outbox == old(self).outbox,
            final(self).state == old(self).state,
            final(self).node_id == old(self).node_id,
            final(self).sdo_state == old(self).sdo_state,
            final(self).pdo_objects.cob_to_index == old(self).pdo_objects.cob_to_index,
            final(self).keeps_counters(old(self)),
            final(self).object_directory@ == rpdo_commit(old(self).object_directory@, old(self).pdo_objects.pdos@, 4, is_sync, event == NodeEvent::NodeStart, count),
            forall|k: int| 0 <= k < 8 ==> {
                let p = old(self).pdo_objects.pdos@[k];
                let q = #[trigger] final(self).pdo_objects.pdos@[k];
                if k < 4 && firing(p, is_sync, event == NodeEvent::NodeStart, count) && p.cached_data@.len() > 0 {
                    q.cached_data@.len() == 0 && q.mappings == p.mappings && q.num_of_map_objs == p.num_of_map_objs
                        && q.total_length == p.total_length && q.is_pdo_valid == p.is_pdo_valid && q.cob_id == p.cob_id
                } else {
                    q == p
                }
            },
    {
        let mut index: usize = 0;
        while index < 4
            invariant
                index <= 4,
                self.wf(),
                self.backup_od == old(self).backup_od,
                self.outbox == old(self).outbox,
                self.state == old(self).state,
                self.node_id == old(self).node_id,
                self.sdo_state == old(self).sdo_state,
                self.pdo_objects.cob_to_index == old(self).pdo_objects.cob_to_index,
                self.keeps_counters(old(self)),
                self.pdo_objects.pdos@.len() == 8,
                self.object_directory@ == rpdo_commit(old(self).object_directory@, old(self).pdo_objects.pdos@, index as nat, is_sync, event == NodeEvent::NodeStart, count),
                forall|k: int| 0 <= k < 8 ==> {
                    let p = old(self).pdo_objects.pdos@[k];
                    let q = #[trigger] self.pdo_objects.pdos@[k];
                    if k < index && firing(p, is_sync, event == NodeEvent::NodeStart, count) && p.cached_data@.len() > 0 {
                        q.cached_data@.len() == 0 && q.mappings == p.mappings && q.num_of_map_objs == p.num_of_map_objs
                            && q.total_length == p.total_length && q.is_pdo_valid == p.is_pdo_valid && q.cob_id == p.cob_id
                    } else {
                        q == p
                    }
                },
            decreases 4 - index,
        {
            assert(self.pdo_objects.wf());
            assert(self.pdo_objects.pdos@[index as int].wf());
            assert(self.pdo_objects.pdos@[index as int].length_consistent());
            let pdo = &self.pdo_objects.pdos[index];
            assert(*pdo == old(self).pdo_objects.pdos@[index as int]);
            let ghost od_start = self.object_directory@;
            let fire = pdo.is_pdo_valid && should_trigger_pdo(is_sync, event == NodeEvent::NodeStart, pdo.transmission_type as u32, pdo.event_timer as u32, count);
            if fire && pdo.cached_data.len() > 0 {
                let n = pdo.num_of_map_objs;
                let mappings = copy_mappings(&pdo.mappings);
                let mut lengths: Vec<u8> = Vec::new();
                let mut k: u8 = 0;
                while k < n
                    invariant
                        k <= n <= MAX_PDO_MAPPING_LENGTH,
                        mappings@.len() == MAX_PDO_MAPPING_LENGTH,
                        lengths@.len() == k,
                        forall|j: int| 0 <= j < k ==> #[trigger] lengths@[j] == mappings@[j].2,
                    decreases n - k,
                {
                    lengths.push(mappings[k as usize].2);
                    k = k + 1;
                }
                let unpacked = unpack_data(pdo.cached_data.as_slice(), lengths.as_slice());
                assert(lengths@ =~= mapped_widths(pdo.mappings@, n as nat));
                let ghost pdos_before = self.pdo_objects.pdos;
                let mut f: usize = 0;
                while f < n as usize && f < unpacked.len()
                    invariant
                        f <= n as usize,
                        n <= MAX_PDO_MAPPING_LENGTH,
                        mappings@.len() == MAX_PDO_MAPPING_LENGTH,
                        self.wf(),
                        self.backup_od == old(self).backup_od,
                        self.outbox == old(self).outbox,
                        self.state == old(self).state,
                        self.node_id == old(self).node_id,
                        self.sdo_state == old(self).sdo_state,
                        self.pdo_objects.cob_to_index == old(self).pdo_objects.cob_to_index,
                        self.keeps_counters(old(self)),
                        self.pdo_objects.pdos == pdos_before,
                        index < 4,
                        f <= unpacked@.len(),
                        self.object_directory@ == field_writes(od_start, mappings@, unpacked@, f as nat),
                    decreases n as usize - f,
                {
                    let (i, si, _) = mappings[f];
                    let (data, _) = unpacked[f];
                    let bytes = le_bytes_of(data, 8);
                    self.object_directory.set_value_with_fitting_size(i, si, bytes.as_slice());
                    f = f + 1;
                }
                assert(f as nat == min_nat(n as nat, unpacked@.len()));
                assert(self.pdo_objects.pdos@[index as int].wf());
                assert(self.pdo_objects.pdos@[index as int].length_consistent());
                let ghost before = self.pdo_objects;
                assert(forall|i: int| 0 <= i < 8 ==> #[trigger] before.pdos@[i].wf() && before.pdos@[i].length_consistent());
                self.pdo_objects.pdos[index].clear_cached_data();
                assert(self.pdo_objects.pdos@[index as int].wf());
                assert(self.pdo_objects.pdos@[index as int].length_consistent());
                assert(forall|i: int| 0 <= i < 8 && i != index ==> self.pdo_objects.pdos@[i] == before.pdos@[i]);
                assert(forall|i: int| 0 <= i < 8 ==> #[trigger] self.pdo_objects.pdos@[i].wf() && self.pdo_objects.pdos@[i].length_consistent());
                assert(forall|c: u16| #[trigger] cob_entries(self.pdo_objects.cob_to_index).contains_key(c) ==> {
                    let s = cob_entries(self.pdo_objects.cob_to_index)[c];
                    0 <= s < 8 && self.pdo_objects.pdos@[s as int].is_pdo_valid && self.pdo_objects.pdos@[s as int].cob_id == c
                });
            }
            index = index + 1;
        }
    }
}

fn copy_mappings(m: &Vec<(u16, u8, u8)>) -> (r: Vec<(u16, u8, u8)>)
    ensures
        r@ == m@,
{
    let mut r: Vec<(u16, u8, u8)> = Vec::new();
    let mut i: usize = 0;
    while i < m.len()
        invariant
            i <= m@.len(),
            r@ == m@.subrange(0, i as int),
        decreases m@.len() - i,
    {
        r.push(m[i]);
        i = i + 1;
    }
    assert(r@ =~= m@);
    r
}

} // verus!
