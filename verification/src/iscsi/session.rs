//! The full feature phase: task tags, sequence numbers, and what each PDU from
//! the target means.

use crate::buffer::{
    bytes_clone, bytes_content, bytes_mut_content, bytes_mut_slice, bytes_slice, clone_opt,
    opt_content,
};
use crate::chunks::{chunks_of, chunks_tile, min_int, piece, pieces_joined, pieces_make_the_run};
use crate::clock::{duration_nanos, elapsed_nanos};
use crate::iscsi::command::ScsiStatus;
use crate::iscsi::login::NegotiatedParams;
use crate::iscsi::pdu::{zero_between, Bhs, Opcode, Pdu};
use crate::wire::be32;
use bytes::{Bytes, BytesMut};
use core::time::Duration;
use std::collections::HashMap;
use vstd::prelude::*;

verus! {

broadcast use {vstd::std_specs::hash::group_hash_axioms, vstd::std_specs::bits::group_bits_axioms};

// ---------------------------------------------------------------------------
// PduResponse
// ---------------------------------------------------------------------------

/// What a completed SCSI command returns to the caller.
pub struct PduResponse {
    pub status: ScsiStatus,
    pub data: Option<Bytes>,
    pub sense: Option<Bytes>,
}

impl PduResponse {
    /// What the response says, by content.
    pub open spec fn says(
        self,
        status: ScsiStatus,
        data: Option<Seq<u8>>,
        sense: Option<Seq<u8>>,
    ) -> bool {
        &&& self.status == status
        &&& opt_content(self.data) == data
        &&& opt_content(self.sense) == sense
    }
}

/// The status that a status byte stands for.
pub open spec fn status_from(byte: u8) -> ScsiStatus {
    <ScsiStatus as vstd::std_specs::convert::FromSpec<u8>>::from_spec(byte)
}

// ---------------------------------------------------------------------------
// IttPool — manages 128 ITT slots
// ---------------------------------------------------------------------------

/// Bit `i` of `w`.
pub open spec fn bit(w: u64, i: u64) -> bool {
    (w >> i) & 1 == 1
}

proof fn lemma_set_bit(w: u64, i: u64)
    requires
        i < 64,
    ensures
        forall|j: u64| j < 64 ==> #[trigger] bit(w | (1u64 << i), j) == (bit(w, j) || j == i),
{
    assert forall|j: u64| j < 64 implies #[trigger] bit(w | (1u64 << i), j) == (bit(w, j) || j
        == i) by {
        assert(((w | (1u64 << i)) >> j) & 1 == 1 <==> ((w >> j) & 1 == 1 || j == i)) by (bit_vector)
            requires
                i < 64,
                j < 64,
        ;
    }
}

proof fn lemma_clear_bit(w: u64, i: u64)
    requires
        i < 64,
    ensures
        forall|j: u64| j < 64 ==> #[trigger] bit(w & !(1u64 << i), j) == (bit(w, j) && j != i),
{
    assert forall|j: u64| j < 64 implies #[trigger] bit(w & !(1u64 << i), j) == (bit(w, j) && j
        != i) by {
        assert(((w & !(1u64 << i)) >> j) & 1 == 1 <==> ((w >> j) & 1 == 1 && j != i)) by (bit_vector)
            requires
                i < 64,
                j < 64,
        ;
    }
}

proof fn lemma_no_bit(i: u64)
    requires
        i < 64,
    ensures
        !bit(0, i),
{
    assert((0u64 >> i) & 1 == 0) by (bit_vector);
}

/// The lowest clear bit of `w` is the number of trailing zeros of its
/// complement.
proof fn lemma_lowest_clear(w: u64, n: u32)
    requires
        n == (!w).trailing_zeros(),
    ensures
        n <= 64,
        n < 64 ==> !bit(w, n as u64),
        forall|j: u64| j < n ==> #[trigger] bit(w, j),
{
    let c = !w;
    vstd::std_specs::bits::axiom_u64_trailing_zeros(c);
    if n < 64 {
        let k = n as u64;
        assert((w >> k) & 1 == 0) by (bit_vector)
            requires
                c == !w,
                (c >> k) & 1 == 1,
                k < 64,
        ;
    }
    assert forall|j: u64| j < n implies #[trigger] bit(w, j) by {
        assert((c >> j) & 1 == 0);
        assert((w >> j) & 1 == 1) by (bit_vector)
            requires
                c == !w,
                (c >> j) & 1 == 0,
                j < 64,
        ;
    }
}

/// ITT (Initiator Task Tag) allocator with 128 slots.
///
/// Bits in `slots_lo` (ITTs 0-63) and `slots_hi` (ITTs 64-127) track which
/// ITTs are in-use. A set bit means the slot is occupied. With each task tag
/// goes whoever waits for the response (`S`), and the data of a write that the
/// target may ask for.
pub struct IttPool<S> {
    slots_lo: u64,
    slots_hi: u64,
    completions: Vec<Option<S>>,
    write_data: HashMap<u32, Bytes>,
}

impl<S> IttPool<S> {
    pub closed spec fn wf(self) -> bool {
        self.completions.len() == 128
    }

    /// Whether the tag is in use.
    pub closed spec fn in_use(self, itt: int) -> bool {
        if itt < 64 {
            bit(self.slots_lo, itt as u64)
        } else {
            bit(self.slots_hi, (itt - 64) as u64)
        }
    }

    /// Who waits for the response to each tag.
    pub closed spec fn waiters(self) -> Seq<Option<S>> {
        self.completions@
    }

    /// The data registered for writes, by tag.
    pub closed spec fn writes(self) -> Map<u32, Seq<u8>> {
        self.write_data@.map_values(|b: Bytes| bytes_content(b))
    }

    /// Every tag is in use.
    pub open spec fn full(self) -> bool {
        forall|j: int| 0 <= j < 128 ==> #[trigger] self.in_use(j)
    }

    /// `self` is `before` with the tag `itt`, the lowest that was free, in use by
    /// `waiter`.
    pub open spec fn allocated_from(self, before: Self, itt: u32, waiter: S) -> bool {
        &&& self.wf()
        &&& itt < 128
        &&& !before.in_use(itt as int)
        &&& forall|j: int| 0 <= j < itt ==> #[trigger] before.in_use(j)
        &&& forall|j: int|
            0 <= j < 128 ==> #[trigger] self.in_use(j) == (before.in_use(j) || j == itt)
        &&& self.waiters() == before.waiters().update(itt as int, Some(waiter))
        &&& self.writes() == before.writes()
    }

    /// `self` is `before` with the tag `itt` free.
    pub open spec fn freed_from(self, before: Self, itt: u32) -> bool {
        &&& self.wf()
        &&& forall|j: int|
            0 <= j < 128 ==> #[trigger] self.in_use(j) == (before.in_use(j) && j != itt)
        &&& self.writes() == before.writes()
    }

    /// `self` is `before` with the tag `itt` free and nobody waiting for it.
    pub open spec fn completed_from(self, before: Self, itt: u32) -> bool {
        &&& self.freed_from(before, itt)
        &&& self.waiters() == before.waiters().update(itt as int, None)
    }

    /// Create a new pool with all 128 ITT slots free.
    pub fn new() -> (r: Self)
        ensures
            r.wf(),
            forall|j: int| 0 <= j < 128 ==> !#[trigger] r.in_use(j),
            r.waiters() == Seq::new(128, |i: int| None::<S>),
            r.writes() == Map::<u32, Seq<u8>>::empty(),
    {
        let mut completions: Vec<Option<S>> = Vec::new();
        let mut i: usize = 0;
        while i < 128
            invariant
                i <= 128,
                completions.len() == i,
                forall|j: int| 0 <= j < i ==> completions[j] is None,
            decreases 128 - i,
        {
            completions.push(None);
            i = i + 1;
        }
        let r = Self { slots_lo: 0, slots_hi: 0, completions, write_data: HashMap::new() };
        proof {
            assert forall|j: int| 0 <= j < 128 implies !#[trigger] r.in_use(j) by {
                if j < 64 {
                    lemma_no_bit(j as u64);
                } else {
                    lemma_no_bit((j - 64) as u64);
                }
            }
            assert(r.waiters() =~= Seq::new(128, |i: int| None::<S>));
            assert(r.writes() =~= Map::<u32, Seq<u8>>::empty());
        }
        r
    }

    /// Allocate a free ITT slot for `waiter`.
    ///
    /// Returns the ITT, or `None` if all 128 slots are occupied.
    pub fn allocate(&mut self, waiter: S) -> (r: Option<u32>)
        requires
            old(self).wf(),
        ensures
            match r {
                Some(itt) => final(self).allocated_from(*old(self), itt, waiter),
                None => old(self).full() && *final(self) == *old(self),
            },
    {
        // Try slots_lo first (ITTs 0-63).
        let current: u64 = self.slots_lo;
        let free_bit: u32 = (!current).trailing_zeros();
        proof {
            lemma_lowest_clear(current, free_bit);
        }
        if free_bit < 64 {
            let mask: u64 = 1u64 << free_bit;
            self.slots_lo = current | mask;
            self.completions[free_bit as usize] = Some(waiter);
            proof {
                lemma_set_bit(current, free_bit as u64);
                assert forall|j: int| 0 <= j < free_bit implies #[trigger] old(self).in_use(j) by {
                    assert(bit(current, j as u64));
                }
            }
            return Some(free_bit);
        }
        // Try slots_hi (ITTs 64-127).
        let current: u64 = self.slots_hi;
        let free_bit: u32 = (!current).trailing_zeros();
        proof {
            lemma_lowest_clear(current, free_bit);
        }
        if free_bit < 64 {
            let mask: u64 = 1u64 << free_bit;
            self.slots_hi = current | mask;
            let itt: u32 = 64 + free_bit;
            self.completions[itt as usize] = Some(waiter);
            proof {
                lemma_set_bit(current, free_bit as u64);
                assert forall|j: int| 0 <= j < itt implies #[trigger] old(self).in_use(j) by {
                    if j < 64 {
                        assert(bit(old(self).slots_lo, j as u64));
                    } else {
                        assert(bit(current, (j - 64) as u64));
                    }
                }
            }
            return Some(itt);
        }
        // All 128 slots occupied.
        proof {
            assert forall|j: int| 0 <= j < 128 implies #[trigger] self.in_use(j) by {
                if j < 64 {
                    assert(bit(self.slots_lo, j as u64));
                } else {
                    assert(bit(self.slots_hi, (j - 64) as u64));
                }
            }
        }
        None
    }

    /// Whether all 128 ITT slots are occupied.
    pub fn is_full(&self) -> (r: bool)
        ensures
            r == self.full(),
    {
        let lo: u32 = (!self.slots_lo).trailing_zeros();
        let hi: u32 = (!self.slots_hi).trailing_zeros();
        proof {
            lemma_lowest_clear(self.slots_lo, lo);
            lemma_lowest_clear(self.slots_hi, hi);
            if lo < 64 {
                assert(!self.in_use(lo as int));
            } else if hi < 64 {
                assert(!self.in_use(64 + hi as int));
            } else {
                assert forall|j: int| 0 <= j < 128 implies #[trigger] self.in_use(j) by {
                    if j < 64 {
                        assert(bit(self.slots_lo, j as u64));
                    } else {
                        assert(bit(self.slots_hi, (j - 64) as u64));
                    }
                }
            }
        }
        lo == 64 && hi == 64
    }

    /// Free an ITT slot, making it available for reuse.
    pub fn free(&mut self, itt: u32)
        requires
            old(self).wf(),
            itt < 128,
        ensures
            final(self).freed_from(*old(self), itt),
            final(self).waiters() == old(self).waiters(),
    {
        if itt < 64 {
            let w: u64 = self.slots_lo;
            self.slots_lo = w & !(1u64 << itt);
            proof {
                lemma_clear_bit(w, itt as u64);
            }
        } else {
            let w: u64 = self.slots_hi;
            self.slots_hi = w & !(1u64 << (itt - 64));
            proof {
                lemma_clear_bit(w, (itt - 64) as u64);
            }
        }
    }

    /// Complete a command: hand the response back together with whoever waits
    /// for it, then free the ITT slot. Where nobody waits (any more), the
    /// response is dropped.
    pub fn complete(&mut self, itt: u32, response: PduResponse) -> (r: Option<(S, PduResponse)>)
        requires
            old(self).wf(),
            itt < 128,
        ensures
            final(self).completed_from(*old(self), itt),
            match old(self).waiters()[itt as int] {
                Some(waiter) => r == Some((waiter, response)),
                None => r is None,
            },
    {
        let waiter: Option<S> = self.completions[itt as usize].take();
        self.free(itt);
        match waiter {
            Some(waiter) => Some((waiter, response)),
            None => None,
        }
    }

    /// Register write data for a specific ITT (used for R2T handling).
    pub fn register_write_data(&mut self, itt: u32, data: Bytes)
        ensures
            final(self).wf() == old(self).wf(),
            forall|j: int| final(self).in_use(j) == old(self).in_use(j),
            final(self).waiters() == old(self).waiters(),
            final(self).writes() == old(self).writes().insert(itt, bytes_content(data)),
    {
        let ghost content = bytes_content(data);
        self.write_data.insert(itt, data);
        assert(self.writes() =~= old(self).writes().insert(itt, content));
    }

    /// Get a handle on the write data registered for an ITT.
    pub fn get_write_data(&self, itt: u32) -> (r: Option<Bytes>)
        ensures
            opt_content(r) == self.writes().get(itt),
    {
        match self.write_data.get(&itt) {
            Some(data) => Some(bytes_clone(data)),
            None => None,
        }
    }

    /// Remove and discard the write data for an ITT.
    pub fn remove_write_data(&mut self, itt: u32)
        ensures
            final(self).wf() == old(self).wf(),
            forall|j: int| final(self).in_use(j) == old(self).in_use(j),
            final(self).waiters() == old(self).waiters(),
            final(self).writes() == old(self).writes().remove(itt),
    {
        self.write_data.remove(&itt);
        assert(self.writes() =~= old(self).writes().remove(itt));
    }

    /// Return all ITT slot indices that are currently in-use, in ascending
    /// order.
    pub fn outstanding_itts(&self) -> (r: Vec<u32>)
        ensures
            forall|i: int, j: int| 0 <= i < j < r.len() ==> r[i] < r[j],
            forall|i: int| 0 <= i < r.len() ==> #[trigger] r[i] < 128 && self.in_use(r[i] as int),
            forall|itt: int|
                0 <= itt < 128 && #[trigger] self.in_use(itt) ==> r@.contains(itt as u32),
    {
        let mut result: Vec<u32> = Vec::new();
        let mut itt: u32 = 0;
        while itt < 128
            invariant
                itt <= 128,
                forall|i: int, j: int| 0 <= i < j < result.len() ==> result[i] < result[j],
                forall|i: int|
                    0 <= i < result.len() ==> #[trigger] result[i] < itt && self.in_use(
                        result[i] as int,
                    ),
                forall|k: int|
                    0 <= k < itt && #[trigger] self.in_use(k) ==> result@.contains(k as u32),
            decreases 128 - itt,
        {
            let word: u64 = if itt < 64 {
                self.slots_lo
            } else {
                self.slots_hi
            };
            let shift: u64 = (itt % 64) as u64;
            if (word >> shift) & 1 == 1 {
                let ghost before = result@;
                result.push(itt);
                assert(result@[before.len() as int] == itt);
                assert(self.in_use(itt as int));
                assert forall|k: int|
                    0 <= k <= itt && #[trigger] self.in_use(k) implies result@.contains(
                    k as u32,
                ) by {
                    if k < itt {
                        let i = before.index_of(k as u32);
                        assert(before.contains(k as u32));
                        assert(result@[i] == k as u32);
                    }
                }
            }
            itt = itt + 1;
        }
        result
    }
}

impl<S> Default for IttPool<S> {
    fn default() -> (r: Self)
        ensures
            r.wf(),
            forall|j: int| 0 <= j < 128 ==> !#[trigger] r.in_use(j),
            r.waiters() == Seq::new(128, |i: int| None::<S>),
            r.writes() == Map::<u32, Seq<u8>>::empty(),
    {
        Self::new()
    }
}

/// A tag that is given back right away is the next one to be given out, to
/// whoever asks.
pub proof fn freed_tag_is_reused<S>(
    before: IttPool<S>,
    taken: IttPool<S>,
    freed: IttPool<S>,
    again: IttPool<S>,
    itt: u32,
    itt2: u32,
    waiter: S,
    waiter2: S,
)
    requires
        taken.allocated_from(before, itt, waiter),
        freed.freed_from(taken, itt),
        again.allocated_from(freed, itt2, waiter2),
    ensures
        itt2 == itt,
{
    if itt2 < itt {
        assert(before.in_use(itt2 as int));
        assert(freed.in_use(itt2 as int));
    } else if itt2 > itt {
        assert(freed.in_use(itt as int));
    }
}

/// Two commands that are under way never share a tag: a tag that is allocated
/// while another is in use is a different one.
pub proof fn tags_are_distinct<S>(before: IttPool<S>, after: IttPool<S>, itt: u32, waiter: S, held: u32)
    requires
        held < 128,
        before.in_use(held as int),
        after.allocated_from(before, itt, waiter),
    ensures
        itt != held,
        after.in_use(held as int),
        after.in_use(itt as int),
{
}

/// A full pool has no tag to give, and one that is not full has one.
pub proof fn only_a_full_pool_gives_no_tag<S>(pool: IttPool<S>)
    ensures
        pool.full() ==> forall|after: IttPool<S>, itt: u32, waiter: S| !after.allocated_from(
            pool,
            itt,
            waiter,
        ),
        !pool.full() ==> exists|itt: u32| itt < 128 && !#[trigger] pool.in_use(itt as int),
{
    if !pool.full() {
        let j = choose|j: int| 0 <= j < 128 && !#[trigger] pool.in_use(j);
        assert(!pool.in_use((j as u32) as int));
    }
}

/// Commands that are sent one after the other without an answer get the tags
/// from 0 on, and no more than 128 of them get one.
pub proof fn unanswered_commands_are_numbered<S>(
    pools: Seq<IttPool<S>>,
    tags: Seq<u32>,
    waiters: Seq<S>,
    k: int,
)
    requires
        pools.len() == tags.len() + 1,
        waiters.len() == tags.len(),
        forall|j: int| 0 <= j < 128 ==> !#[trigger] pools[0].in_use(j),
        forall|i: int|
            0 <= i < tags.len() ==> pools[i + 1].allocated_from(
                pools[i],
                #[trigger] tags[i],
                waiters[i],
            ),
        0 <= k <= tags.len(),
    ensures
        k <= 128,
        forall|i: int| 0 <= i < k ==> #[trigger] tags[i] == i,
        forall|j: int| 0 <= j < 128 ==> #[trigger] pools[k].in_use(j) == (j < k),
    decreases k,
{
    if k > 0 {
        unanswered_commands_are_numbered(pools, tags, waiters, k - 1);
        let itt = tags[k - 1];
        assert(pools[k - 1 + 1].allocated_from(pools[k - 1], itt, waiters[k - 1]));
        assert(!pools[k - 1].in_use(itt as int));
        if itt > k - 1 {
            assert(pools[k - 1].in_use(k - 1));
        }
    }
}

// ---------------------------------------------------------------------------
// SessionState — sequence numbers
// ---------------------------------------------------------------------------

/// Session-level sequence numbers tracked by the initiator.
#[derive(Debug, Clone, Copy, PartialEq, Eq, Structural)]
pub struct SessionState {
    pub cmd_sn: u32,
    pub exp_stat_sn: u32,
    /// Target's ExpCmdSN (from most recent response).
    pub exp_cmd_sn: u32,
    /// Target's MaxCmdSN (from most recent response).
    pub max_cmd_sn: u32,
}

/// The successor of a serial number.
pub open spec fn serial_next(a: u32) -> u32 {
    ((a + 1) % 0x1_0000_0000) as u32
}

impl SessionState {
    /// Initialize session state with the given starting sequence numbers.
    pub fn new(initial_cmd_sn: u32, initial_exp_stat_sn: u32) -> (r: Self)
        ensures
            r == (SessionState {
                cmd_sn: initial_cmd_sn,
                exp_stat_sn: initial_exp_stat_sn,
                exp_cmd_sn: initial_cmd_sn,
                max_cmd_sn: initial_cmd_sn,
            }),
    {
        Self {
            cmd_sn: initial_cmd_sn,
            exp_stat_sn: initial_exp_stat_sn,
            exp_cmd_sn: initial_cmd_sn,
            max_cmd_sn: initial_cmd_sn,
        }
    }

    /// Check if CmdSN is within the command window.
    ///
    /// The target advertises [ExpCmdSN, MaxCmdSN] as the valid window.
    /// We check `cmd_sn <= max_cmd_sn` using RFC 1982 serial comparison.
    pub fn cmd_sn_in_window(&self) -> (r: bool)
        ensures
            r == serial_at_most(self.cmd_sn, self.max_cmd_sn),
    {
        serial_le(self.cmd_sn, self.max_cmd_sn)
    }

    /// Take the current CmdSN and advance to the next.
    pub fn next_cmd_sn(&mut self) -> (r: u32)
        ensures
            r == old(self).cmd_sn,
            *final(self) == (SessionState { cmd_sn: serial_next(old(self).cmd_sn), ..*old(self) }),
    {
        let cmd_sn: u32 = self.cmd_sn;
        self.cmd_sn = cmd_sn.wrapping_add(1);
        cmd_sn
    }

    /// Update session-level sequence numbers from a target response BHS.
    ///
    /// - StatSN: store `stat_sn + 1` as our next ExpStatSN.
    /// - ExpCmdSN / MaxCmdSN: update the command window.
    pub fn update_sequence_numbers(&mut self, bhs: &Bhs)
        ensures
            *final(self) == old(self).updated_by(*bhs),
    {
        self.exp_stat_sn = bhs.stat_sn().wrapping_add(1);
        self.exp_cmd_sn = bhs.exp_cmd_sn();
        self.max_cmd_sn = bhs.max_cmd_sn();
    }

    /// The state after a response with this header.
    pub open spec fn updated_by(self, bhs: Bhs) -> SessionState {
        SessionState {
            cmd_sn: self.cmd_sn,
            exp_stat_sn: serial_next(be32(bhs.raw@, 24) as u32),
            exp_cmd_sn: be32(bhs.raw@, 28) as u32,
            max_cmd_sn: be32(bhs.raw@, 32) as u32,
        }
    }
}

// ---------------------------------------------------------------------------
// serial_le — RFC 1982 serial number arithmetic
// ---------------------------------------------------------------------------

/// How far `b` is ahead of `a` in the circle of 32-bit serial numbers.
pub open spec fn serial_distance(a: u32, b: u32) -> int {
    (b - a) % 0x1_0000_0000
}

/// `a` is equal to `b`, or `b` is ahead of it by less than half the circle.
pub open spec fn serial_at_most(a: u32, b: u32) -> bool {
    serial_distance(a, b) < 0x8000_0000
}

/// RFC 1982 serial number less-than-or-equal comparison for 32-bit values.
///
/// Returns true if `a <= b` in the serial number space, i.e. a equals b or
/// b is "ahead" of a by less than 2^31.
pub fn serial_le(a: u32, b: u32) -> (r: bool)
    ensures
        r == serial_at_most(a, b),
{
    a == b || {
        let diff: u32 = b.wrapping_sub(a);
        diff > 0 && diff < 0x8000_0000
    }
}

/// The serial comparison is reflexive and antisymmetric, orders each number
/// before its successor across the wrap-around, and looks only at the distance:
/// moving both numbers on leaves it as it was.
pub proof fn serial_order(a: u32, b: u32)
    ensures
        serial_at_most(a, a),
        serial_at_most(a, b) && serial_at_most(b, a) ==> a == b,
        serial_at_most(a, serial_next(a)),
        !serial_at_most(serial_next(a), a),
        serial_at_most(serial_next(a), serial_next(b)) == serial_at_most(a, b),
{
}

/// The serial number that comes `n` numbers after `a`.
pub open spec fn serial_after(a: u32, n: nat) -> u32
    decreases n,
{
    if n == 0 {
        a
    } else {
        serial_next(serial_after(a, (n - 1) as nat))
    }
}

/// The numbers after `a` are those that counting gives, round the circle.
pub proof fn serial_after_counts(a: u32, n: nat)
    ensures
        serial_after(a, n) == (a + n) % 0x1_0000_0000,
        serial_next(a) == (if a == u32::MAX {
            0
        } else {
            a + 1
        }),
    decreases n,
{
    if n > 0 {
        serial_after_counts(a, (n - 1) as nat);
    }
}

/// The comparison agrees with the order of the numbers wherever they are less
/// than half the circle apart, and turns it round where they are more: there
/// the greater number is the one from before the wrap-around.
pub proof fn serial_order_is_that_of_near_numbers(a: u32, b: u32)
    requires
        a <= b,
    ensures
        b - a < 0x8000_0000 ==> serial_at_most(a, b) && (serial_at_most(b, a) <==> a == b),
        b - a > 0x8000_0000 ==> serial_at_most(b, a) && !serial_at_most(a, b),
        b - a == 0x8000_0000 ==> !serial_at_most(a, b) && !serial_at_most(b, a),
{
}

/// A number is at most each of the half circle of numbers that follow it, and
/// at most none of the other half.
pub proof fn serial_order_spans_half_the_circle(a: u32, n: nat)
    requires
        n < 0x1_0000_0000,
    ensures
        serial_at_most(a, serial_after(a, n)) <==> n < 0x8000_0000,
        serial_at_most(serial_after(a, n), a) <==> n == 0 || n > 0x8000_0000,
{
    serial_after_counts(a, n);
}

/// A window that reaches `n` numbers beyond the next command takes that command
/// and `n` more, and then no further one, wherever it lies in the circle.
pub proof fn window_takes_its_commands(cmd_sn: u32, n: nat, k: nat)
    requires
        n < 0x8000_0000,
        k <= n + 0x8000_0000,
    ensures
        serial_at_most(serial_after(cmd_sn, k), serial_after(cmd_sn, n)) <==> k <= n,
{
    serial_after_counts(cmd_sn, n);
    serial_after_counts(cmd_sn, k);
}

/// A response moves the sequence numbers to where the target says it is: the
/// status to expect next is the one after the one it carries, and the window is
/// the one it names. Our own CmdSN is not the target's to change.
pub proof fn response_sets_the_sequence_numbers(state: SessionState, bhs: Bhs)
    ensures
        ({
            let after = state.updated_by(bhs);
            let stat_sn = bhs.raw[24] * 0x100_0000 + bhs.raw[25] * 0x1_0000 + bhs.raw[26] * 0x100
                + bhs.raw[27];
            &&& after.cmd_sn == state.cmd_sn
            &&& after.exp_stat_sn == (if stat_sn == 0xFFFF_FFFF {
                0
            } else {
                stat_sn + 1
            })
            &&& after.exp_cmd_sn == bhs.raw[28] * 0x100_0000 + bhs.raw[29] * 0x1_0000 + bhs.raw[30]
                * 0x100 + bhs.raw[31]
            &&& after.max_cmd_sn == bhs.raw[32] * 0x100_0000 + bhs.raw[33] * 0x1_0000 + bhs.raw[34]
                * 0x100 + bhs.raw[35]
        }),
{
}

// ---------------------------------------------------------------------------
// Session
// ---------------------------------------------------------------------------

/// A buffer after `data` was written into it at `offset`. It grows as far as
/// needed; what was never written is zero.
pub open spec fn written_at(buf: Seq<u8>, offset: int, data: Seq<u8>) -> Seq<u8> {
    Seq::new(
        (if buf.len() < offset + data.len() {
            offset + data.len()
        } else {
            buf.len() as int
        }) as nat,
        |i: int|
            if offset <= i < offset + data.len() {
                data[i - offset]
            } else if i < buf.len() {
                buf[i]
            } else {
                0
            },
    )
}

/// `pdu` is the SCSI Command with these numbers, this CDB and this data.
pub open spec fn is_scsi_command(
    pdu: Pdu,
    lun: u64,
    itt: u32,
    cmd_sn: u32,
    exp_stat_sn: u32,
    cdb: Seq<u8>,
    edtl: u32,
    read: bool,
    write: bool,
    data: Option<Seq<u8>>,
) -> bool {
    let bhs = pdu.bhs;
    &&& bhs.has_fields(
        Opcode::ScsiCommand,
        false,
        0x80 + (if read { 0x40int } else { 0 }) + (if write { 0x20int } else { 0 }),
        match data {
            Some(data) => data.len() as u32,
            None => 0,
        },
        lun,
        itt,
    )
    &&& zero_between(bhs.raw@, 2, 5)
    &&& crate::wire::be64(bhs.raw@, 8) == lun
    &&& be32(bhs.raw@, 16) == itt
    &&& be32(bhs.raw@, 20) == edtl
    &&& be32(bhs.raw@, 24) == cmd_sn
    &&& be32(bhs.raw@, 28) == exp_stat_sn
    &&& bhs.raw@.subrange(32, 48) == cdb
    &&& pdu.ahs is None
    &&& opt_content(pdu.data) == data
}

/// `pdu` is a NOP-Out with the reserved task tag.
pub open spec fn is_nop_out(pdu: Pdu, ttt: u32, state: SessionState) -> bool {
    let bhs = pdu.bhs;
    &&& bhs.has_fields(Opcode::NopOut, true, 0x80, 0, 0, 0xFFFF_FFFF)
    &&& bhs.synced()
    &&& zero_between(bhs.raw@, 2, 5)
    &&& be32(bhs.raw@, 20) == ttt
    &&& be32(bhs.raw@, 24) == state.cmd_sn
    &&& be32(bhs.raw@, 28) == state.exp_stat_sn
    &&& zero_between(bhs.raw@, 32, 48)
    &&& pdu.ahs is None
    &&& pdu.data is None
}

/// `reply` is what a NOP-In with this header is answered with: a NOP-Out where
/// it is a ping, which has a transfer tag, and nothing where it is a reply.
pub open spec fn answers_nop_in(reply: Option<Pdu>, ping: Bhs, state: SessionState) -> bool {
    match reply {
        Some(reply) => be32(ping.raw@, 20) != 0xFFFF_FFFF && is_nop_out(
            reply,
            be32(ping.raw@, 20) as u32,
            state,
        ),
        None => be32(ping.raw@, 20) == 0xFFFF_FFFF,
    }
}

/// `pdu` is the Data-Out number `sn` in answer to an R2T: it carries `data`,
/// which stands at `offset` in the data to write, and the final bit where it is
/// the last.
pub open spec fn is_data_out(
    pdu: Pdu,
    itt: u32,
    ttt: u32,
    exp_stat_sn: u32,
    sn: int,
    offset: int,
    last: bool,
    data: Seq<u8>,
) -> bool {
    let bhs = pdu.bhs;
    &&& bhs.has_fields(
        Opcode::ScsiDataOut,
        false,
        if last {
            0x80
        } else {
            0
        },
        data.len() as u32,
        0,
        itt,
    )
    &&& zero_between(bhs.raw@, 2, 5)
    &&& zero_between(bhs.raw@, 8, 16)
    &&& be32(bhs.raw@, 16) == itt
    &&& be32(bhs.raw@, 20) == ttt
    &&& zero_between(bhs.raw@, 24, 28)
    &&& be32(bhs.raw@, 28) == exp_stat_sn
    &&& zero_between(bhs.raw@, 32, 36)
    &&& be32(bhs.raw@, 36) == sn
    &&& be32(bhs.raw@, 40) == offset as u32
    &&& zero_between(bhs.raw@, 44, 48)
    &&& pdu.ahs is None
    &&& opt_content(pdu.data) == Some(data)
}

/// The pieces that the answer to an R2T comes in.
pub open spec fn r2t_chunks(r2t: Bhs, max_segment: int) -> Seq<(int, int)> {
    chunks_of(be32(r2t.raw@, 40), be32(r2t.raw@, 44), max_segment)
}

/// Every piece that the R2T asks for starts inside the `len` bytes there are.
pub open spec fn r2t_in_range(r2t: Bhs, max_segment: int, len: int) -> bool {
    forall|i: int|
        0 <= i < r2t_chunks(r2t, max_segment).len() ==> (#[trigger] r2t_chunks(
            r2t,
            max_segment,
        )[i]).0 <= len
}

/// `pdus` are the Data-Out PDUs that answer the R2T out of `data`.
pub open spec fn answers_r2t(
    pdus: Seq<Pdu>,
    r2t: Bhs,
    exp_stat_sn: u32,
    max_segment: int,
    data: Seq<u8>,
) -> bool {
    let chunks = r2t_chunks(r2t, max_segment);
    &&& pdus.len() == chunks.len()
    &&& forall|i: int|
        0 <= i < pdus.len() ==> is_data_out(
            #[trigger] pdus[i],
            r2t.itt,
            be32(r2t.raw@, 20) as u32,
            exp_stat_sn,
            i,
            chunks[i].0,
            i == chunks.len() - 1,
            piece(data, chunks[i]),
        )
}

/// What to do about a PDU that came.
pub enum ReceiverAction<S> {
    /// Hand the response to the waiter.
    Deliver(S, PduResponse),
    /// Send the Data-Out PDUs that the R2T asks for.
    AnswerR2t,
    /// Send this PDU.
    Send(Pdu),
    /// Nothing is left to do.
    Nothing,
    /// Note that a PDU of this type came, which the session makes no use of.
    Note(Opcode),
}

/// How often to look for the write data that an R2T asks for.
pub const R2T_ATTEMPTS: u32 = 50;

/// How long to wait between two attempts, in milliseconds.
pub const R2T_RETRY_MS: u64 = 1;

/// What to do about an R2T.
pub enum R2tStep {
    /// Send these Data-Out PDUs.
    Send(Vec<Pdu>),
    /// The write data is not there yet: wait, then try again.
    WaitAndRetry,
    /// The write data did not come.
    GiveUp,
}

/// An active iSCSI full-feature-phase session. Whoever waits for the response
/// to a command is known to it as `S`.
pub struct Session<S> {
    pub itt_pool: IttPool<S>,
    pub state: SessionState,
    pub negotiated: NegotiatedParams,
    /// When the last PDU was received (for NOP keepalive).
    pub last_recv: Duration,
    /// Accumulated Data-In bytes keyed by ITT, used to reassemble multi-PDU
    /// read responses before the final status-bearing Data-In arrives.
    pub data_accumulator: HashMap<u32, BytesMut>,
}

impl<S> Session<S> {
    pub open spec fn wf(self) -> bool {
        self.itt_pool.wf()
    }

    /// The read data that has come so far, by task tag.
    pub open spec fn accumulated(self) -> Map<u32, Seq<u8>> {
        self.data_accumulator@.map_values(|b: BytesMut| bytes_mut_content(b))
    }

    /// Nothing but the sequence numbers differs from `before`.
    pub open spec fn same_tasks(self, before: Self) -> bool {
        &&& self.itt_pool == before.itt_pool
        &&& self.negotiated == before.negotiated
        &&& self.accumulated() == before.accumulated()
    }

    /// The read data after a Data-In with this header and data.
    pub open spec fn accumulated_with(self, bhs: Bhs, data: Option<Seq<u8>>) -> Map<u32, Seq<u8>> {
        match data {
            Some(data) => {
                let so_far = if self.accumulated().contains_key(bhs.itt) {
                    self.accumulated()[bhs.itt]
                } else {
                    seq![]
                };
                self.accumulated().insert(bhs.itt, written_at(so_far, be32(bhs.raw@, 40), data))
            },
            None => self.accumulated(),
        }
    }

    /// `self` is `before` after a SCSI Response: the task is over, its tag is
    /// free, its data is gone, and whoever waited for it is handed the status,
    /// the read data that had come and the sense data.
    pub open spec fn took_scsi_response(
        self,
        before: Self,
        pdu: Pdu,
        delivery: Option<(S, PduResponse)>,
    ) -> bool {
        let itt = pdu.bhs.itt;
        &&& self.wf()
        &&& self.negotiated == before.negotiated
        &&& self.accumulated() == before.accumulated().remove(itt)
        &&& forall|j: int|
            0 <= j < 128 ==> #[trigger] self.itt_pool.in_use(j) == (before.itt_pool.in_use(j) && j
                != itt)
        &&& self.itt_pool.waiters() == before.itt_pool.waiters().update(itt as int, None)
        &&& self.itt_pool.writes() == before.itt_pool.writes().remove(itt)
        &&& match before.itt_pool.waiters()[itt as int] {
            Some(waiter) => {
                &&& delivery matches Some((w, response))
                &&& w == waiter
                &&& response.says(
                    status_from(pdu.bhs.raw[3]),
                    before.accumulated().get(itt),
                    opt_content(pdu.data),
                )
            },
            None => delivery is None,
        }
    }

    /// `self` is `before` after a Data-In: its data is added to what had come,
    /// and where it carries the status the task is over, its tag is free, and
    /// whoever waited for it is handed the status and all the data.
    pub open spec fn took_data_in(
        self,
        before: Self,
        pdu: Pdu,
        delivery: Option<(S, PduResponse)>,
    ) -> bool {
        let itt = pdu.bhs.itt;
        let accumulated = before.accumulated_with(pdu.bhs, opt_content(pdu.data));
        &&& self.wf()
        &&& self.negotiated == before.negotiated
        &&& if pdu.bhs.raw[1] % 2 == 1 {
            &&& self.accumulated() == accumulated.remove(itt)
            &&& self.itt_pool.completed_from(before.itt_pool, itt)
            &&& match before.itt_pool.waiters()[itt as int] {
                Some(waiter) => {
                    &&& delivery matches Some((w, response))
                    &&& w == waiter
                    &&& response.says(
                        status_from(pdu.bhs.raw[3]),
                        accumulated.get(itt),
                        None,
                    )
                },
                None => delivery is None,
            }
        } else {
            &&& self.accumulated() == accumulated
            &&& self.itt_pool == before.itt_pool
            &&& delivery is None
        }
    }

    /// The PDU is one that the session can take: a task that it ends has one of
    /// the 128 tags, and its data does not reach beyond what memory can hold.
    pub open spec fn can_take(pdu: Pdu) -> bool {
        &&& pdu.bhs.opcode == Opcode::ScsiResponse ==> pdu.bhs.itt < 128
        &&& pdu.bhs.opcode == Opcode::ScsiDataIn ==> {
            &&& pdu.bhs.raw[1] % 2 == 1 ==> pdu.bhs.itt < 128
            &&& pdu.data is Some ==> be32(pdu.bhs.raw@, 40) + bytes_content(pdu.data->0).len()
                <= isize::MAX
        }
    }

    /// The longest data segment to send: what the target takes, else what we
    /// take, else 256 KB.
    pub open spec fn spec_max_segment(self) -> u32 {
        if self.negotiated.max_send_data_segment_length > 0 {
            self.negotiated.max_send_data_segment_length
        } else if self.negotiated.max_recv_data_segment_length > 0 {
            self.negotiated.max_recv_data_segment_length
        } else {
            262_144
        }
    }

    /// Create a new session in full-feature phase.
    pub fn new(
        itt_pool: IttPool<S>,
        state: SessionState,
        negotiated: NegotiatedParams,
        now: Duration,
    ) -> (r: Self)
        ensures
            r.itt_pool == itt_pool,
            r.state == state,
            r.negotiated == negotiated,
            r.last_recv == now,
            r.accumulated() == Map::<u32, Seq<u8>>::empty(),
    {
        let r = Self {
            itt_pool,
            state,
            negotiated,
            last_recv: now,
            data_accumulator: HashMap::new(),
        };
        assert(r.accumulated() =~= Map::<u32, Seq<u8>>::empty());
        r
    }

    /// Prepare a SCSI command for `waiter`: allocate an ITT slot, advance CmdSN
    /// and build the SCSI Command PDU to send.
    ///
    /// The waiter comes back where the CmdSN window is closed or all ITT slots
    /// are occupied; the command has to be tried again then.
    pub fn submit_command(
        &mut self,
        waiter: S,
        cdb: &[u8; 16],
        lun: u64,
        edtl: u32,
        read: bool,
        write: bool,
        immediate_data: &Option<Bytes>,
    ) -> (r: Result<(u32, Pdu), S>)
        requires
            old(self).wf(),
        ensures
            match r {
                Ok((itt, pdu)) => {
                    &&& serial_at_most(old(self).state.cmd_sn, old(self).state.max_cmd_sn)
                    &&& final(self).itt_pool.allocated_from(old(self).itt_pool, itt, waiter)
                    &&& final(self).state == (SessionState {
                        cmd_sn: serial_next(old(self).state.cmd_sn),
                        ..old(self).state
                    })
                    &&& final(self).negotiated == old(self).negotiated
                    &&& final(self).last_recv == old(self).last_recv
                    &&& final(self).accumulated() == old(self).accumulated()
                    &&& is_scsi_command(
                        pdu,
                        lun,
                        itt,
                        old(self).state.cmd_sn,
                        old(self).state.exp_stat_sn,
                        cdb@,
                        edtl,
                        read,
                        write,
                        opt_content(*immediate_data),
                    )
                },
                Err(back) => {
                    &&& back == waiter
                    &&& *final(self) == *old(self)
                    &&& !serial_at_most(old(self).state.cmd_sn, old(self).state.max_cmd_sn)
                        || old(self).itt_pool.full()
                },
            },
            r is Ok <==> serial_at_most(old(self).state.cmd_sn, old(self).state.max_cmd_sn)
                && !old(self).itt_pool.full(),
    {
        // 1. The CmdSN window has to be open.
        if !self.state.cmd_sn_in_window() {
            return Err(waiter);
        }
        // 2. Allocate ITT.
        if self.itt_pool.is_full() {
            return Err(waiter);
        }
        let itt: u32 = match self.itt_pool.allocate(waiter) {
            Some(itt) => itt,
            None => {
                assert(false);
                0
            },
        };
        // 3. Advance CmdSN and load ExpStatSN.
        let cmd_sn: u32 = self.state.next_cmd_sn();
        let exp_stat_sn: u32 = self.state.exp_stat_sn;
        // 4. Build the SCSI Command BHS.
        let mut bhs = Bhs::build_scsi_command(
            lun,
            itt,
            cmd_sn,
            exp_stat_sn,
            cdb,
            edtl,
            read,
            write,
        );
        // 5. Set data segment length if immediate data is provided.
        if let Some(data) = immediate_data {
            bhs.data_segment_length = data.len() as u32;
        }
        Ok((itt, Pdu { bhs, ahs: None, data: clone_opt(immediate_data) }))
    }

    /// The NOP-Out PDU of an unsolicited ping for keepalive.
    pub fn send_nop_out(&self) -> (r: Pdu)
        ensures
            is_nop_out(r, 0xFFFF_FFFF, self.state),
    {
        let bhs = Bhs::build_nop_out(
            0xFFFF_FFFF,
            0xFFFF_FFFF,
            self.state.cmd_sn,
            self.state.exp_stat_sn,
        );
        Pdu { bhs, ahs: None, data: None }
    }

    /// The Logout Request PDU that closes the session. It takes a CmdSN.
    pub fn send_logout(&mut self) -> (r: Pdu)
        ensures
            final(self).same_tasks(*old(self)),
            final(self).last_recv == old(self).last_recv,
            final(self).state == (SessionState {
                cmd_sn: serial_next(old(self).state.cmd_sn),
                ..old(self).state
            }),
            r.bhs.has_fields(Opcode::LogoutRequest, true, 0x80, 0, 0, 0xFFFF_FFFF),
            r.bhs.synced(),
            zero_between(r.bhs.raw@, 2, 5),
            zero_between(r.bhs.raw@, 20, 24),
            be32(r.bhs.raw@, 24) == old(self).state.cmd_sn,
            be32(r.bhs.raw@, 28) == old(self).state.exp_stat_sn,
            zero_between(r.bhs.raw@, 32, 48),
            r.ahs is None,
            r.data is None,
    {
        let cmd_sn: u32 = self.state.next_cmd_sn();
        let bhs = Bhs::build_logout_request(0xFFFF_FFFF, cmd_sn, self.state.exp_stat_sn, 0);
        Pdu { bhs, ahs: None, data: None }
    }

    // -----------------------------------------------------------------------
    // PDU handlers
    // -----------------------------------------------------------------------

    /// Take the accumulated Data-In bytes (if any) for an ITT.
    fn take_accumulated(&mut self, itt: u32) -> (r: Option<Bytes>)
        ensures
            final(self).itt_pool == old(self).itt_pool,
            final(self).state == old(self).state,
            final(self).negotiated == old(self).negotiated,
            final(self).last_recv == old(self).last_recv,
            opt_content(r) == old(self).accumulated().get(itt),
            final(self).accumulated() == old(self).accumulated().remove(itt),
    {
        let r = match self.data_accumulator.remove(&itt) {
            Some(buf) => Some(buf.freeze()),
            None => None,
        };
        assert(self.accumulated() =~= old(self).accumulated().remove(itt));
        r
    }

    /// Handle a SCSI Response PDU (opcode 0x21).
    ///
    /// Extracts the SCSI status, takes any accumulated read data for this ITT,
    /// and completes the ITT.
    pub fn handle_scsi_response(&mut self, pdu: &Pdu) -> (r: Option<(S, PduResponse)>)
        requires
            old(self).wf(),
            pdu.bhs.itt < 128,
        ensures
            final(self).state == old(self).state,
            final(self).last_recv == old(self).last_recv,
            final(self).took_scsi_response(*old(self), *pdu, r),
    {
        let itt: u32 = pdu.bhs.itt;
        let status = ScsiStatus::from(pdu.bhs.scsi_status());
        let data = self.take_accumulated(itt);
        let response = PduResponse { status, data, sense: clone_opt(&pdu.data) };
        let r = self.itt_pool.complete(itt, response);
        self.itt_pool.remove_write_data(itt);
        r
    }

    /// Handle a Data-In PDU (opcode 0x25).
    ///
    /// Accumulates read data at the specified buffer offset. If the S (status)
    /// bit is set, the transfer is complete: take all accumulated data, build
    /// a PduResponse, and complete the ITT.
    pub fn handle_data_in(&mut self, pdu: &Pdu) -> (r: Option<(S, PduResponse)>)
        requires
            old(self).wf(),
            pdu.bhs.raw[1] % 2 == 1 ==> pdu.bhs.itt < 128,
            pdu.data is Some ==> be32(pdu.bhs.raw@, 40) + bytes_content(pdu.data->0).len()
                <= isize::MAX,
        ensures
            final(self).state == old(self).state,
            final(self).last_recv == old(self).last_recv,
            final(self).took_data_in(*old(self), *pdu, r),
    {
        let itt: u32 = pdu.bhs.itt;
        let buffer_offset: usize = pdu.bhs.buffer_offset() as usize;
        // Accumulate data if present.
        if let Some(data) = &pdu.data {
            let data: &[u8] = crate::buffer::bytes_as_slice(data);
            let mut buf: BytesMut = match self.data_accumulator.remove(&itt) {
                Some(buf) => buf,
                None => BytesMut::new(),
            };
            let ghost so_far = bytes_mut_content(buf);
            assert(old(self).accumulated().contains_key(itt) ==> so_far == old(self).accumulated()[itt]);
            write_at(&mut buf, buffer_offset, data);
            self.data_accumulator.insert(itt, buf);
            assert(self.accumulated() =~= old(self).accumulated_with(
                pdu.bhs,
                opt_content(pdu.data),
            ));
        }
        // If the status flag (S bit) is set, the transfer is complete.
        if pdu.bhs.status_flag() {
            let status = ScsiStatus::from(pdu.bhs.scsi_status());
            let data = self.take_accumulated(itt);
            let response = PduResponse { status, data, sense: None };
            return self.itt_pool.complete(itt, response);
        }
        None
    }

    /// The longest data segment to send.
    pub fn max_segment(&self) -> (r: u32)
        ensures
            r == self.spec_max_segment(),
            r > 0,
    {
        if self.negotiated.max_send_data_segment_length > 0 {
            self.negotiated.max_send_data_segment_length
        } else if self.negotiated.max_recv_data_segment_length > 0 {
            self.negotiated.max_recv_data_segment_length
        } else {
            262_144
        }
    }

    /// Whether every piece that the R2T asks for starts inside the data that is
    /// registered for its task.
    pub fn can_answer_r2t(&self, pdu: &Pdu) -> (r: bool)
        ensures
            r == (self.itt_pool.writes().contains_key(pdu.bhs.itt) ==> r2t_in_range(
                pdu.bhs,
                self.spec_max_segment() as int,
                self.itt_pool.writes()[pdu.bhs.itt].len() as int,
            )),
    {
        let write_data: Bytes = match self.itt_pool.get_write_data(pdu.bhs.itt) {
            Some(data) => data,
            None => {
                return true;
            },
        };
        let len: u64 = write_data.len() as u64;
        let start: u64 = pdu.bhs.r2t_buffer_offset() as u64;
        let count: u64 = pdu.bhs.r2t_desired_length() as u64;
        let seg: u64 = self.max_segment() as u64;
        let ghost chunks = r2t_chunks(pdu.bhs, seg as int);
        let mut sent: u64 = 0;
        let mut n: usize = 0;
        assert(chunks.skip(0) =~= chunks);
        while sent < count
            invariant
                sent <= count <= u32::MAX,
                start <= u32::MAX,
                0 < seg <= u32::MAX,
                n <= sent,
                n <= chunks.len(),
                chunks == chunks_of(start as int, count as int, seg as int),
                chunks.skip(n as int) == chunks_of(start + sent, count - sent, seg as int),
                forall|i: int| 0 <= i < n ==> (#[trigger] chunks[i]).0 <= len,
                chunks == r2t_chunks(pdu.bhs, self.spec_max_segment() as int),
                self.itt_pool.writes().contains_key(pdu.bhs.itt),
                self.itt_pool.writes()[pdu.bhs.itt].len() == len,
            decreases count - sent,
        {
            let remaining: u64 = count - sent;
            let chunk_len: u64 = if remaining < seg {
                remaining
            } else {
                seg
            };
            proof {
                chunks_tile(start + sent, count - sent, seg as int);
            }
            assert(chunks.skip(n as int)[0] == chunks[n as int]);
            assert(chunks[n as int] == (start + sent, chunk_len as int));
            if start + sent > len {
                return false;
            }
            assert(chunks.skip(n as int).drop_first() =~= chunks.skip(n + 1));
            assert(chunks.skip(n as int).drop_first() =~= chunks_of(
                start + sent + chunk_len,
                count - sent - chunk_len,
                seg as int,
            ));
            sent = sent + chunk_len;
            n = n + 1;
        }
        assert(chunks.skip(n as int).len() == 0);
        true
    }

    /// Handle an R2T (Ready To Transfer) PDU (opcode 0x31).
    ///
    /// The target is requesting write data. We slice the registered write data
    /// at the requested offset/length into one or more Data-Out PDUs.
    ///
    /// The write data may not be registered yet if the target sent the R2T
    /// before the submitter had a chance to do so. The caller then waits for
    /// [`R2T_RETRY_MS`] and tries again; after [`R2T_ATTEMPTS`] attempts (the
    /// first has number 0) the R2T is given up.
    pub fn handle_r2t(&self, pdu: &Pdu, attempt: u32) -> (r: R2tStep)
        requires
            self.itt_pool.writes().contains_key(pdu.bhs.itt) ==> r2t_in_range(
                pdu.bhs,
                self.spec_max_segment() as int,
                self.itt_pool.writes()[pdu.bhs.itt].len() as int,
            ),
        ensures
            match r {
                R2tStep::Send(pdus) => {
                    &&& attempt < R2T_ATTEMPTS
                    &&& self.itt_pool.writes().contains_key(pdu.bhs.itt)
                    &&& answers_r2t(
                        pdus@,
                        pdu.bhs,
                        self.state.exp_stat_sn,
                        self.spec_max_segment() as int,
                        self.itt_pool.writes()[pdu.bhs.itt],
                    )
                },
                R2tStep::WaitAndRetry => attempt < R2T_ATTEMPTS
                    && !self.itt_pool.writes().contains_key(pdu.bhs.itt),
                R2tStep::GiveUp => attempt >= R2T_ATTEMPTS,
            },
    {
        if attempt >= R2T_ATTEMPTS {
            return R2tStep::GiveUp;
        }
        let write_data: Bytes = match self.itt_pool.get_write_data(pdu.bhs.itt) {
            Some(data) => data,
            None => {
                return R2tStep::WaitAndRetry;
            },
        };
        let max_segment: u32 = self.max_segment();
        R2tStep::Send(data_out_pdus(&pdu.bhs, self.state.exp_stat_sn, max_segment, &write_data))
    }

    /// Handle a NOP-In PDU (opcode 0x20).
    ///
    /// If the target sent a ping (TTT != 0xFFFFFFFF), respond with a NOP-Out
    /// echoing the TTT. If TTT == 0xFFFFFFFF, it is an unsolicited NOP-In
    /// (response to our NOP-Out) and no reply is needed.
    pub fn handle_nop_in(&self, pdu: &Pdu) -> (r: Option<Pdu>)
        ensures
            answers_nop_in(r, pdu.bhs, self.state),
    {
        let ttt: u32 = pdu.bhs.ttt();
        if ttt != 0xFFFF_FFFF {
            let bhs = Bhs::build_nop_out(
                0xFFFF_FFFF,
                ttt,
                self.state.cmd_sn,
                self.state.exp_stat_sn,
            );
            Some(Pdu { bhs, ahs: None, data: None })
        } else {
            None
        }
    }

    /// Whether the session can take this PDU.
    pub fn is_acceptable(pdu: &Pdu) -> (r: bool)
        ensures
            r == Self::can_take(*pdu),
    {
        match pdu.bhs.opcode {
            Opcode::ScsiResponse => pdu.bhs.itt < 128,
            Opcode::ScsiDataIn => {
                let fits = match &pdu.data {
                    Some(data) => {
                        let offset: u64 = pdu.bhs.buffer_offset() as u64;
                        let limit: u64 = isize::MAX as u64;
                        offset <= limit && data.len() as u64 <= limit - offset
                    },
                    None => true,
                };
                fits && (!pdu.bhs.status_flag() || pdu.bhs.itt < 128)
            },
            _ => true,
        }
    }

    /// Update the last-received timestamp.
    pub fn update_last_recv(&mut self, now: Duration)
        ensures
            *final(self) == (Session { last_recv: now, ..*old(self) }),
    {
        self.last_recv = now;
    }

    /// Return how long it has been since the last PDU was received.
    pub fn time_since_last_recv(&self, now: Duration) -> (r: Duration)
        ensures
            duration_nanos(r) == elapsed_nanos(now, self.last_recv),
    {
        now.saturating_sub(self.last_recv)
    }

    /// Take a PDU from the target: update the last-received timestamp and the
    /// sequence numbers, then dispatch it to the handler of its type.
    pub fn on_pdu(&mut self, pdu: &Pdu, now: Duration) -> (r: ReceiverAction<S>)
        requires
            old(self).wf(),
            Self::can_take(*pdu),
        ensures
            final(self).wf(),
            final(self).state == old(self).state.updated_by(pdu.bhs),
            final(self).last_recv == now,
            match pdu.bhs.opcode {
                Opcode::ScsiResponse => match r {
                    ReceiverAction::Deliver(w, response) => final(self).took_scsi_response(
                        *old(self),
                        *pdu,
                        Some((w, response)),
                    ),
                    ReceiverAction::Nothing => final(self).took_scsi_response(
                        *old(self),
                        *pdu,
                        None,
                    ),
                    _ => false,
                },
                Opcode::ScsiDataIn => match r {
                    ReceiverAction::Deliver(w, response) => final(self).took_data_in(
                        *old(self),
                        *pdu,
                        Some((w, response)),
                    ),
                    ReceiverAction::Nothing => final(self).took_data_in(*old(self), *pdu, None),
                    _ => false,
                },
                Opcode::R2t => final(self).same_tasks(*old(self)) && r is AnswerR2t,
                Opcode::NopIn => final(self).same_tasks(*old(self)) && match r {
                    ReceiverAction::Send(reply) => answers_nop_in(
                        Some(reply),
                        pdu.bhs,
                        final(self).state,
                    ),
                    ReceiverAction::Nothing => answers_nop_in(None, pdu.bhs, final(self).state),
                    _ => false,
                },
                opcode => final(self).same_tasks(*old(self)) && r == ReceiverAction::<S>::Note(
                    opcode,
                ),
            },
    {
        self.update_last_recv(now);
        self.state.update_sequence_numbers(&pdu.bhs);
        match pdu.bhs.opcode {
            Opcode::ScsiResponse => match self.handle_scsi_response(pdu) {
                Some((waiter, response)) => ReceiverAction::Deliver(waiter, response),
                None => ReceiverAction::Nothing,
            },
            Opcode::ScsiDataIn => match self.handle_data_in(pdu) {
                Some((waiter, response)) => ReceiverAction::Deliver(waiter, response),
                None => ReceiverAction::Nothing,
            },
            Opcode::R2t => ReceiverAction::AnswerR2t,
            Opcode::NopIn => match self.handle_nop_in(pdu) {
                Some(reply) => ReceiverAction::Send(reply),
                None => ReceiverAction::Nothing,
            },
            opcode => ReceiverAction::Note(opcode),
        }
    }
}

/// Write `data` into `buf` at `offset`.
fn write_at(buf: &mut BytesMut, offset: usize, data: &[u8])
    requires
        offset + data@.len() <= isize::MAX,
    ensures
        bytes_mut_content(*final(buf)) == written_at(
            bytes_mut_content(*old(buf)),
            offset as int,
            data@,
        ),
{
    let needed: usize = offset + data.len();
    if buf.len() < needed {
        buf.resize(needed, 0);
    }
    let ghost grown = bytes_mut_content(*buf);
    let dst: &mut [u8] = bytes_mut_slice(buf);
    let mut i: usize = 0;
    while i < data.len()
        invariant
            i <= data.len(),
            offset + data.len() <= isize::MAX,
            offset + data.len() <= dst@.len() == grown.len(),
            forall|j: int|
                0 <= j < dst@.len() ==> #[trigger] dst@[j] == (if offset <= j < offset + i {
                    data[j - offset]
                } else {
                    grown[j]
                }),
        decreases data.len() - i,
    {
        dst[offset + i] = data[i];
        i = i + 1;
    }
    assert(dst@ =~= written_at(bytes_mut_content(*old(buf)), offset as int, data@));
}

/// The Data-Out PDUs that answer an R2T out of `write_data`.
pub fn data_out_pdus(r2t: &Bhs, exp_stat_sn: u32, max_segment: u32, write_data: &Bytes) -> (r: Vec<
    Pdu,
>)
    requires
        max_segment > 0,
        r2t_in_range(*r2t, max_segment as int, bytes_content(*write_data).len() as int),
    ensures
        answers_r2t(r@, *r2t, exp_stat_sn, max_segment as int, bytes_content(*write_data)),
{
    let itt: u32 = r2t.itt;
    let ttt: u32 = r2t.ttt();
    let buffer_offset: u32 = r2t.r2t_buffer_offset();
    let desired_length: u32 = r2t.r2t_desired_length();
    let ghost data = bytes_content(*write_data);
    let ghost chunks = r2t_chunks(*r2t, max_segment as int);
    let mut pdus: Vec<Pdu> = Vec::new();
    let mut sent: u32 = 0;
    let mut data_sn: u32 = 0;
    assert(chunks.skip(0) =~= chunks);
    while sent < desired_length
        invariant
            sent <= desired_length,
            data_sn <= sent,
            data_sn == pdus.len(),
            data_sn <= chunks.len(),
            max_segment > 0,
            itt == r2t.itt,
            ttt == be32(r2t.raw@, 20),
            data == bytes_content(*write_data),
            chunks == r2t_chunks(*r2t, max_segment as int),
            chunks.skip(data_sn as int) == chunks_of(
                buffer_offset + sent,
                desired_length - sent,
                max_segment as int,
            ),
            forall|i: int| 0 <= i < chunks.len() ==> (#[trigger] chunks[i]).0 <= data.len(),
            forall|i: int|
                0 <= i < pdus.len() ==> is_data_out(
                    #[trigger] pdus[i],
                    itt,
                    ttt,
                    exp_stat_sn,
                    i,
                    chunks[i].0,
                    i == chunks.len() - 1,
                    piece(data, chunks[i]),
                ),
        decreases desired_length - sent,
    {
        let remaining: u32 = desired_length - sent;
        let chunk_len: u32 = if remaining < max_segment {
            remaining
        } else {
            max_segment
        };
        let ghost n = data_sn as int;
        let ghost rest = chunks.skip(n);
        proof {
            chunks_tile(buffer_offset + sent, desired_length - sent, max_segment as int);
            assert(rest[0] == chunks[n]);
            assert(chunks[n] == (buffer_offset + sent, chunk_len as int));
            assert(rest.drop_first() =~= chunks.skip(n + 1));
            assert(rest.drop_first() =~= chunks_of(
                buffer_offset + sent + chunk_len,
                desired_length - sent - chunk_len,
                max_segment as int,
            ));
            chunks_tile(
                buffer_offset + sent + chunk_len,
                desired_length - sent - chunk_len,
                max_segment as int,
            );
            assert(chunks.len() == n + rest.len());
            assert(n + 1 + rest.drop_first().len() == chunks.len());
        }
        let start: u64 = buffer_offset as u64 + sent as u64;
        assert(start <= data.len());
        let len: usize = write_data.len();
        let offset: usize = start as usize;
        let end: usize = if len - offset < chunk_len as usize {
            len
        } else {
            offset + chunk_len as usize
        };
        let chunk: Bytes = bytes_slice(write_data, offset, end);
        let is_final = chunk_len == remaining;
        let mut bhs = Bhs::build_data_out(
            0,
            itt,
            ttt,
            exp_stat_sn,
            data_sn,
            offset as u32,
        );
        if is_final {
            bhs.flags = 0x80;  // F bit
        } else {
            bhs.flags = 0x00;  // no F bit
        }
        bhs.data_segment_length = chunk.len() as u32;
        let pdu = Pdu { bhs, ahs: None, data: Some(chunk) };
        assert(is_data_out(
            pdu,
            itt,
            ttt,
            exp_stat_sn,
            n,
            chunks[n].0,
            n == chunks.len() - 1,
            piece(data, chunks[n]),
        ));
        pdus.push(pdu);
        sent = sent + chunk_len;
        data_sn = data_sn + 1;
    }
    assert(chunks.skip(data_sn as int).len() == 0);
    pdus
}

/// The data of PDUs, one after the other.
pub open spec fn joined_data(pdus: Seq<Pdu>) -> Seq<u8>
    decreases pdus.len(),
{
    if pdus.len() == 0 {
        seq![]
    } else {
        (match opt_content(pdus[0].data) {
            Some(data) => data,
            None => seq![],
        }) + joined_data(pdus.drop_first())
    }
}

proof fn lemma_joined_is_pieces(pdus: Seq<Pdu>, chunks: Seq<(int, int)>, data: Seq<u8>)
    requires
        pdus.len() == chunks.len(),
        forall|i: int|
            0 <= i < pdus.len() ==> opt_content((#[trigger] pdus[i]).data) == Some(
                piece(data, chunks[i]),
            ),
    ensures
        joined_data(pdus) == pieces_joined(data, chunks),
    decreases pdus.len(),
{
    if pdus.len() > 0 {
        assert forall|i: int| 0 <= i < pdus.drop_first().len() implies opt_content(
            (#[trigger] pdus.drop_first()[i]).data,
        ) == Some(piece(data, chunks.drop_first()[i])) by {
            assert(pdus.drop_first()[i] == pdus[i + 1]);
        }
        lemma_joined_is_pieces(pdus.drop_first(), chunks.drop_first(), data);
    }
}

/// An R2T is answered in full: the Data-Out PDUs carry, in order and without
/// gaps, exactly the bytes that it asks for (as far as there are any), and
/// only the last one is marked as final.
pub proof fn r2t_is_answered_in_full(
    pdus: Seq<Pdu>,
    r2t: Bhs,
    exp_stat_sn: u32,
    max_segment: int,
    data: Seq<u8>,
)
    requires
        0 < max_segment,
        be32(r2t.raw@, 40) <= data.len(),
        r2t_in_range(r2t, max_segment, data.len() as int),
        answers_r2t(pdus, r2t, exp_stat_sn, max_segment, data),
    ensures
        joined_data(pdus) == data.subrange(
            be32(r2t.raw@, 40),
            min_int(be32(r2t.raw@, 40) + be32(r2t.raw@, 44), data.len() as int),
        ),
        forall|i: int|
            0 <= i < pdus.len() ==> ((#[trigger] pdus[i]).bhs.flags == 0x80 <==> i == pdus.len() - 1),
        forall|i: int|
            0 <= i < pdus.len() ==> bytes_content((#[trigger] pdus[i]).data->0).len()
                <= max_segment,
{
    let chunks = r2t_chunks(r2t, max_segment);
    let start = be32(r2t.raw@, 40);
    let count = be32(r2t.raw@, 44);
    assert forall|i: int| 0 <= i < pdus.len() implies opt_content((#[trigger] pdus[i]).data)
        == Some(piece(data, chunks[i])) by {}
    lemma_joined_is_pieces(pdus, chunks, data);
    pieces_make_the_run(data, start, count, max_segment);
    chunks_tile(start, count, max_segment);
    assert forall|i: int| 0 <= i < pdus.len() implies bytes_content(
        (#[trigger] pdus[i]).data->0,
    ).len() <= max_segment by {
        assert(chunks[i].1 <= max_segment);
        assert(bytes_content(pdus[i].data->0) == piece(data, chunks[i]));
        assert(chunks[i].0 <= data.len());
    }
}

/// Read data that comes in order is reassembled by appending: what a Data-In
/// carries for the end of what had come stands there, behind it.
pub proof fn in_order_data_is_appended(so_far: Seq<u8>, data: Seq<u8>)
    ensures
        written_at(so_far, so_far.len() as int, data) == so_far + data,
{
    assert(written_at(so_far, so_far.len() as int, data) =~= so_far + data);
}

/// The order in which pieces of a read come does not matter, as long as they do
/// not overlap.
pub proof fn disjoint_data_commutes(
    buf: Seq<u8>,
    offset1: int,
    data1: Seq<u8>,
    offset2: int,
    data2: Seq<u8>,
)
    requires
        0 <= offset1,
        0 <= offset2,
        offset1 + data1.len() <= offset2 || offset2 + data2.len() <= offset1,
    ensures
        written_at(written_at(buf, offset1, data1), offset2, data2) == written_at(
            written_at(buf, offset2, data2),
            offset1,
            data1,
        ),
{
    assert(written_at(written_at(buf, offset1, data1), offset2, data2) =~= written_at(
        written_at(buf, offset2, data2),
        offset1,
        data1,
    ));
}

/// A response reaches whoever sent the command: when the tag that a command was
/// given comes back in a SCSI Response, its waiter is handed that response, and
/// the tag is free again.
pub proof fn response_reaches_its_waiter<S>(
    idle: IttPool<S>,
    sent: Session<S>,
    done: Session<S>,
    waiter: S,
    pdu: Pdu,
    delivery: Option<(S, PduResponse)>,
)
    requires
        idle.wf(),
        sent.itt_pool.allocated_from(idle, pdu.bhs.itt, waiter),
        done.took_scsi_response(sent, pdu, delivery),
    ensures
        delivery matches Some((w, response)) && w == waiter && response.status == status_from(
            pdu.bhs.raw[3],
        ) && (response.status == ScsiStatus::Good <==> pdu.bhs.raw[3] == 0) && opt_content(
            response.data,
        ) == sent.accumulated().get(pdu.bhs.itt) && opt_content(response.sense) == opt_content(
            pdu.data,
        ),
        !done.itt_pool.in_use(pdu.bhs.itt as int),
        done.itt_pool.waiters()[pdu.bhs.itt as int] is None,
        !done.accumulated().contains_key(pdu.bhs.itt),
        !done.itt_pool.writes().contains_key(pdu.bhs.itt),
{
}

/// The end of one task leaves every other as it was: its tag, its waiter, and
/// what has come of its data.
pub proof fn other_tasks_are_untouched<S>(
    before: Session<S>,
    after: Session<S>,
    pdu: Pdu,
    delivery: Option<(S, PduResponse)>,
    other: u32,
)
    requires
        before.wf(),
        pdu.bhs.itt < 128,
        other < 128,
        other != pdu.bhs.itt,
        after.took_scsi_response(before, pdu, delivery) || after.took_data_in(
            before,
            pdu,
            delivery,
        ),
    ensures
        after.itt_pool.in_use(other as int) == before.itt_pool.in_use(other as int),
        after.itt_pool.waiters()[other as int] == before.itt_pool.waiters()[other as int],
        after.accumulated().contains_key(other) == before.accumulated().contains_key(other),
        before.accumulated().contains_key(other) ==> after.accumulated()[other]
            == before.accumulated()[other],
        after.itt_pool.writes().contains_key(other) == before.itt_pool.writes().contains_key(other),
        before.itt_pool.writes().contains_key(other) ==> after.itt_pool.writes()[other]
            == before.itt_pool.writes()[other],
{
}

/// What a Data-In brings is kept byte for byte, at the offset that it names,
/// over nothing else: every byte that had come and is not written over stays.
pub proof fn read_data_is_kept<S>(
    before: Session<S>,
    after: Session<S>,
    pdu: Pdu,
    delivery: Option<(S, PduResponse)>,
    i: int,
)
    requires
        pdu.bhs.raw[1] % 2 == 0,
        pdu.data is Some,
        after.took_data_in(before, pdu, delivery),
    ensures
        ({
            let itt = pdu.bhs.itt;
            let data = bytes_content(pdu.data->0);
            let offset = be32(pdu.bhs.raw@, 40);
            let was = if before.accumulated().contains_key(itt) {
                before.accumulated()[itt]
            } else {
                seq![]
            };
            let is = after.accumulated()[itt];
            &&& delivery is None
            &&& after.accumulated().contains_key(itt)
            &&& is.len() >= was.len()
            &&& is.len() >= offset + data.len()
            &&& is.len() == was.len() || is.len() == offset + data.len()
            &&& 0 <= i < data.len() ==> is[offset + i] == data[i]
            &&& 0 <= i < was.len() && !(offset <= i < offset + data.len()) ==> is[i] == was[i]
        }),
{
}

/// The Data-In that carries the status ends the read: whoever waits is handed
/// all that had come with its own bytes in their place, and the tag is free.
/// Where the pieces came in order, that is all of them, one behind the other.
pub proof fn read_reaches_its_waiter<S>(
    before: Session<S>,
    after: Session<S>,
    pdu: Pdu,
    delivery: Option<(S, PduResponse)>,
    waiter: S,
    so_far: Seq<u8>,
)
    requires
        before.wf(),
        pdu.bhs.itt < 128,
        pdu.bhs.raw[1] % 2 == 1,
        pdu.data is Some,
        before.itt_pool.waiters()[pdu.bhs.itt as int] == Some(waiter),
        so_far == (if before.accumulated().contains_key(pdu.bhs.itt) {
            before.accumulated()[pdu.bhs.itt]
        } else {
            seq![]
        }),
        be32(pdu.bhs.raw@, 40) == so_far.len(),
        after.took_data_in(before, pdu, delivery),
    ensures
        delivery matches Some((w, response)) && w == waiter && opt_content(response.data) == Some(
            so_far + bytes_content(pdu.data->0),
        ) && (response.status == ScsiStatus::Good <==> pdu.bhs.raw[3] == 0) && response.sense is None,
        !after.itt_pool.in_use(pdu.bhs.itt as int),
        after.itt_pool.waiters()[pdu.bhs.itt as int] is None,
        !after.accumulated().contains_key(pdu.bhs.itt),
{
    in_order_data_is_appended(so_far, bytes_content(pdu.data->0));
}

/// The answers to an R2T name its task and its transfer tag, are counted from 0
/// on, and say where their data belongs: each stands right behind the one
/// before it, from where the R2T begins.
pub proof fn r2t_answers_name_their_place(
    pdus: Seq<Pdu>,
    r2t: Bhs,
    exp_stat_sn: u32,
    max_segment: int,
    data: Seq<u8>,
    i: int,
)
    requires
        0 < max_segment,
        be32(r2t.raw@, 40) + be32(r2t.raw@, 44) <= data.len(),
        be32(r2t.raw@, 40) + be32(r2t.raw@, 44) <= u32::MAX,
        answers_r2t(pdus, r2t, exp_stat_sn, max_segment, data),
        0 <= i < pdus.len(),
    ensures
        ({
            let bhs = pdus[i].bhs;
            let n = bytes_content(pdus[i].data->0).len();
            &&& pdus[i].data is Some
            &&& bhs.opcode == Opcode::ScsiDataOut
            &&& bhs.itt == r2t.itt
            &&& be32(bhs.raw@, 16) == r2t.itt
            &&& be32(bhs.raw@, 20) == be32(r2t.raw@, 20)
            &&& be32(bhs.raw@, 28) == exp_stat_sn
            &&& be32(bhs.raw@, 36) == i
            &&& be32(bhs.raw@, 40) == be32(r2t.raw@, 40) + i * max_segment
            &&& bhs.data_segment_length == n
            &&& if i < pdus.len() - 1 {
                n == max_segment
            } else {
                n == be32(r2t.raw@, 44) - i * max_segment
            }
            &&& n > 0
            &&& bytes_content(pdus[i].data->0) == data.subrange(
                be32(bhs.raw@, 40),
                be32(bhs.raw@, 40) + n,
            )
        }),
{
    let chunks = r2t_chunks(r2t, max_segment);
    let start = be32(r2t.raw@, 40);
    let count = be32(r2t.raw@, 44);
    chunks_tile(start, count, max_segment);
    crate::chunks::chunks_stand_in_place(start, count, max_segment, i);
    assert(pdus[i] == pdus[i]);
    assert(opt_content(pdus[i].data) == Some(piece(data, chunks[i])));
}

/// A command goes out as what it is: its flags say which way the data goes, the
/// length is that of the data it carries, and the CDB stands in its place.
pub proof fn command_says_what_it_does(
    pdu: Pdu,
    lun: u64,
    itt: u32,
    cmd_sn: u32,
    exp_stat_sn: u32,
    cdb: Seq<u8>,
    edtl: u32,
    read: bool,
    write: bool,
    data: Option<Seq<u8>>,
    i: int,
)
    requires
        is_scsi_command(pdu, lun, itt, cmd_sn, exp_stat_sn, cdb, edtl, read, write, data),
        0 <= i < 16,
    ensures
        pdu.bhs.opcode == Opcode::ScsiCommand,
        !pdu.bhs.immediate,
        pdu.bhs.flags >= 0x80,
        (pdu.bhs.flags / 0x40) % 2 == 1 <==> read,
        (pdu.bhs.flags / 0x20) % 2 == 1 <==> write,
        pdu.bhs.flags % 0x20 == 0,
        pdu.bhs.lun == lun && pdu.bhs.itt == itt,
        be32(pdu.bhs.raw@, 20) == edtl,
        be32(pdu.bhs.raw@, 24) == cmd_sn,
        be32(pdu.bhs.raw@, 28) == exp_stat_sn,
        pdu.bhs.raw[32 + i] == cdb[i],
        data is None ==> pdu.data is None && pdu.bhs.data_segment_length == 0,
        data is Some && data->0.len() <= u32::MAX ==> opt_content(pdu.data) == data
            && pdu.bhs.data_segment_length == data->0.len(),
{
    assert(pdu.bhs.raw@.subrange(32, 48)[i] == pdu.bhs.raw@[32 + i]);
}

/// No data segment is longer than what the target takes, where it said so, and
/// none is shorter than it has to be; there is always some length to send.
pub proof fn segments_keep_to_the_limit<S>(session: Session<S>)
    ensures
        ({
            let n = session.negotiated;
            let limit = session.spec_max_segment();
            &&& limit > 0
            &&& n.max_send_data_segment_length > 0 ==> limit == n.max_send_data_segment_length
            &&& n.max_send_data_segment_length == 0 && n.max_recv_data_segment_length > 0 ==> limit
                == n.max_recv_data_segment_length
            &&& n.max_send_data_segment_length == 0 && n.max_recv_data_segment_length == 0 ==> limit
                == 256 * 1024
        }),
{
}

/// The answer to any command is one that the session takes: whatever tag the
/// pool gave out, the response to it can come.
pub proof fn answers_to_commands_are_taken<S>(
    before: IttPool<S>,
    after: IttPool<S>,
    itt: u32,
    waiter: S,
    pdu: Pdu,
)
    requires
        after.allocated_from(before, itt, waiter),
        pdu.bhs.itt == itt,
        pdu.data is Some ==> bytes_content(pdu.data->0).len() + u32::MAX <= isize::MAX,
    ensures
        Session::<S>::can_take(pdu),
{
}

/// A ping of the target is answered with its own transfer tag, at once and
/// without a command number of its own; the target's reply to one of ours, which
/// has the reserved tag, is not answered.
pub proof fn ping_is_echoed(reply: Option<Pdu>, ping: Bhs, state: SessionState)
    requires
        answers_nop_in(reply, ping, state),
    ensures
        reply is None <==> ping.raw[20] == 0xFF && ping.raw[21] == 0xFF && ping.raw[22] == 0xFF
            && ping.raw[23] == 0xFF,
        reply matches Some(pdu) ==> {
            &&& pdu.bhs.opcode == Opcode::NopOut
            &&& pdu.bhs.immediate
            &&& pdu.bhs.itt == 0xFFFF_FFFF
            &&& pdu.bhs.raw[20] == ping.raw[20] && pdu.bhs.raw[21] == ping.raw[21]
            &&& pdu.bhs.raw[22] == ping.raw[22] && pdu.bhs.raw[23] == ping.raw[23]
            &&& be32(pdu.bhs.raw@, 24) == state.cmd_sn
            &&& be32(pdu.bhs.raw@, 28) == state.exp_stat_sn
            &&& pdu.data is None
        },
{
    if let Some(pdu) = reply {
        crate::iscsi::digest::lemma_same_bytes(
            pdu.bhs.raw[20],
            pdu.bhs.raw[21],
            pdu.bhs.raw[22],
            pdu.bhs.raw[23],
            ping.raw[20],
            ping.raw[21],
            ping.raw[22],
            ping.raw[23],
        );
    }
}

/// An R2T is given up once its write data has been waited for for 50
/// milliseconds, and no sooner.
pub proof fn write_data_is_waited_for(attempt: u32)
    ensures
        attempt >= R2T_ATTEMPTS <==> attempt * R2T_RETRY_MS >= 50,
{
}

} // verus!
