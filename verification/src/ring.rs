//! One queue of a port: a fixed array of slots with a circular window of
//! queued slots.

use vstd::prelude::*;
use crate::slot::{Slot, SlotView};
use crate::window::{
    in_window, lemma_next_head_is_increment_mod, lemma_window_len_is_distance_mod, spec_next_head,
    window_at, window_len, window_rank,
};

verus! {

/// The direction of a ring.
#[derive(Clone, Copy, PartialEq, Eq, Debug, Structural)]
pub enum RingType {
    Rx,
    Tx,
}

/// What the device reports of one ring: its size and its positions.
#[derive(Clone, Copy, Debug)]
pub struct RingState {
    pub num_slots: u32,
    pub buf_size: u32,
    pub head: u32,
    pub cur: u32,
    pub tail: u32,
}

impl RingState {
    /// The three positions lie inside the ring.
    pub open spec fn wf(&self) -> bool {
        &&& self.head < self.num_slots
        &&& self.cur < self.num_slots
        &&& self.tail < self.num_slots
    }

    /// Whether the three positions lie inside the ring.
    pub fn is_valid(&self) -> (valid: bool)
        ensures
            valid == self.wf(),
    {
        self.head < self.num_slots && self.cur < self.num_slots && self.tail < self.num_slots
    }
}

/// What a [`Ring`] holds.
pub struct RingView {
    pub index: u16,
    pub ring_type: RingType,
    pub slots: Seq<SlotView>,
    pub head: nat,
    pub cur: nat,
    pub tail: nat,
}

impl RingView {
    /// The fixed capacity of the ring.
    pub open spec fn num_slots(self) -> nat {
        self.slots.len()
    }

    /// The positions lie inside the ring, and every slot is well formed and
    /// knows its own position.
    pub open spec fn wf(self) -> bool {
        &&& self.head < self.slots.len()
        &&& self.cur < self.slots.len()
        &&& self.tail < self.slots.len()
        &&& forall|i: int|
            0 <= i < self.slots.len() ==> (#[trigger] self.slots[i]).wf() && self.slots[i].index
                == i
    }

    /// Nothing is queued.
    pub open spec fn is_empty(self) -> bool {
        self.head == self.tail
    }

    /// Whether the slot at `index` may be read through the window.
    pub open spec fn in_window(self, index: int) -> bool {
        in_window(self.head as int, self.tail as int, self.slots.len() as int, index)
    }

    /// The queued slots in the order in which they are consumed.
    pub open spec fn queued(self) -> Seq<SlotView> {
        Seq::new(
            window_len(self.head as int, self.tail as int, self.slots.len() as int) as nat,
            |k: int| self.slots[window_at(self.head as int, self.slots.len() as int, k)],
        )
    }

    /// The ring after the slot at `head` was consumed: `head` moved on by one
    /// position, and `cur` with it.
    pub open spec fn advanced(self) -> RingView {
        let next = spec_next_head(self.head as int, self.slots.len() as int) as nat;
        RingView { head: next, cur: next, ..self }
    }

    /// The ring after one call for the next slot: unchanged if nothing is
    /// queued, else advanced.
    pub open spec fn consumed(self) -> RingView {
        if self.is_empty() {
            self
        } else {
            self.advanced()
        }
    }

    /// The ring after `k` calls for the next slot.
    pub open spec fn consumed_times(self, k: nat) -> RingView
        decreases k,
    {
        if k == 0 {
            self
        } else {
            self.consumed().consumed_times((k - 1) as nat)
        }
    }

    /// The ring after it took over the positions that the device reports.
    pub open spec fn synced(self, state: RingState) -> RingView {
        RingView {
            head: state.head as nat,
            cur: state.cur as nat,
            tail: state.tail as nat,
            ..self
        }
    }

    /// The ring after the device stored `bytes` in the slot at `index`.
    pub open spec fn filled(self, index: int, bytes: Seq<u8>) -> RingView {
        RingView { slots: self.slots.update(index, self.slots[index].filled(bytes)), ..self }
    }

    /// The ring that is built for queue `index` from what the device reports:
    /// one blank slot for each position, and the device's positions.
    pub open spec fn fresh(ring_type: RingType, state: RingState, index: u16) -> RingView {
        RingView {
            index,
            ring_type,
            slots: Seq::new(
                state.num_slots as nat,
                |i: int| SlotView::blank(i as nat, state.buf_size as nat),
            ),
            head: state.head as nat,
            cur: state.cur as nat,
            tail: state.tail as nat,
        }
    }
}

/// Why a slot was not handed out: its position is outside the window.
#[derive(Clone, Copy, Debug, PartialEq, Eq, Structural)]
pub struct ContractViolation {
    pub index: usize,
    pub head: usize,
    pub tail: usize,
}

/// A circular buffer of slots with the positions `head`, `cur` and `tail`.
#[derive(Debug)]
pub struct Ring {
    index: u16,
    ring_type: RingType,
    slots: Vec<Slot>,
    head: usize,
    cur: usize,
    tail: usize,
}

impl View for Ring {
    type V = RingView;

    closed spec fn view(&self) -> RingView {
        RingView {
            index: self.index,
            ring_type: self.ring_type,
            slots: Seq::new(self.slots@.len(), |i: int| self.slots@[i]@),
            head: self.head as nat,
            cur: self.cur as nat,
            tail: self.tail as nat,
        }
    }
}

impl Ring {
    /// The invariant of every ring that this crate hands out: that of its
    /// view.
    pub open spec fn wf(&self) -> bool {
        self@.wf()
    }

    /// Builds the ring of queue `index` from what the device reports of it.
    ///
    /// A report with a position outside the ring gives no ring.
    pub fn new(ring_type: RingType, state: &RingState, index: u16) -> (ring: Option<Ring>)
        ensures
            ring is Some <==> state.wf(),
            ring matches Some(r) ==> r.wf() && r@ == RingView::fresh(ring_type, *state, index),
    {
        if !state.is_valid() {
            return None;
        }
        let slots = Ring::create_slots(state);
        let (head, cur, tail) = Ring::get_positions(state);
        let ring = Ring { index, ring_type, slots, head, cur, tail };
        assert(ring@.slots =~= RingView::fresh(ring_type, *state, index).slots);
        Some(ring)
    }

    /// One blank slot for each position of the ring, in order.
    fn create_slots(state: &RingState) -> (slots: Vec<Slot>)
        ensures
            slots@.len() == state.num_slots,
            forall|i: int|
                0 <= i < slots@.len() ==> (#[trigger] slots@[i])@ == SlotView::blank(
                    i as nat,
                    state.buf_size as nat,
                ),
    {
        let num_slots: usize = state.num_slots as usize;
        let buf_size: usize = state.buf_size as usize;
        let mut slots: Vec<Slot> = Vec::new();
        let mut i: usize = 0;
        while i < num_slots
            invariant
                i <= num_slots,
                num_slots == state.num_slots,
                buf_size == state.buf_size,
                slots@.len() == i,
                forall|j: int|
                    0 <= j < i ==> (#[trigger] slots@[j])@ == SlotView::blank(
                        j as nat,
                        buf_size as nat,
                    ),
            decreases num_slots - i,
        {
            slots.push(Slot::new(i, buf_size));
            i += 1;
        }
        slots
    }

    /// The positions that the device reports, as indices into the slot array.
    fn get_positions(state: &RingState) -> (positions: (usize, usize, usize))
        ensures
            positions.0 == state.head,
            positions.1 == state.cur,
            positions.2 == state.tail,
    {
        (state.head as usize, state.cur as usize, state.tail as usize)
    }

    /// The number of the queue that this ring serves.
    pub fn ring_id(&self) -> (id: u16)
        ensures
            id == self@.index,
    {
        self.index
    }

    /// The direction of the ring.
    pub fn ring_type(&self) -> (ring_type: RingType)
        ensures
            ring_type == self@.ring_type,
    {
        self.ring_type
    }

    /// The fixed capacity of the ring.
    pub fn num_slots(&self) -> (n: usize)
        ensures
            n == self@.num_slots(),
    {
        self.slots.len()
    }

    /// The position of the next slot to consume.
    pub fn head(&self) -> (head: usize)
        ensures
            head == self@.head,
    {
        self.head
    }

    /// The position of the next slot to examine.
    pub fn cur(&self) -> (cur: usize)
        ensures
            cur == self@.cur,
    {
        self.cur
    }

    /// The position behind the last queued slot.
    pub fn tail(&self) -> (tail: usize)
        ensures
            tail == self@.tail,
    {
        self.tail
    }

    /// The queued slots, from `head` up to but excluding `tail`, in the order
    /// in which they are consumed, as they stand at the time of the call.
    pub fn iter(&self) -> (queued: Vec<&Slot>)
        requires
            self.wf(),
        ensures
            queued@.len() == self@.queued().len(),
            forall|k: int| 0 <= k < queued@.len() ==> (#[trigger] queued@[k])@ == self@.queued()[k],
    {
        let num_slots = self.slots.len();
        let mut queued: Vec<&Slot> = Vec::new();
        let mut pos: usize = self.head;
        while pos != self.tail
            invariant
                num_slots == self.slots@.len(),
                self.head < num_slots,
                self.tail < num_slots,
                pos < num_slots,
                queued@.len() < num_slots,
                queued@.len() <= self@.queued().len(),
                pos == window_at(self.head as int, num_slots as int, queued@.len() as int),
                pos == self.tail <==> queued@.len() == self@.queued().len(),
                forall|k: int|
                    0 <= k < queued@.len() ==> (#[trigger] queued@[k])@ == self@.queued()[k],
            decreases self@.queued().len() - queued@.len(),
        {
            queued.push(&self.slots[pos]);
            pos = Ring::next_head(pos, num_slots);
        }
        queued
    }

    /// Whether nothing is queued.
    pub fn is_empty(&self) -> (empty: bool)
        ensures
            empty == self@.is_empty(),
    {
        self.head == self.tail
    }

    /// Consumes the slot at `head`, if one is queued, and hands it out.
    ///
    /// On an empty ring nothing changes. Otherwise `head` moves on by one
    /// position modulo the ring's size, and `cur` with it.
    pub fn get_next_slot(&mut self) -> (slot: Option<&Slot>)
        requires
            old(self).wf(),
        ensures
            final(self).wf(),
            final(self)@ == old(self)@.consumed(),
            slot is None <==> old(self)@.is_empty(),
            slot matches Some(s) ==> s@ == old(self)@.slots[old(self)@.head as int],
            !old(self)@.is_empty() ==> final(self)@.head == (old(self)@.head + 1) % old(
                self,
            )@.num_slots(),
    {
        if self.is_empty() {
            None
        } else {
            let slot_ndx = self.head();
            self.advance_next_slot();
            Some(self.at(slot_ndx))
        }
    }

    /// The slot at `index` of the slot array, queued or not.
    pub fn at(&self, index: usize) -> (slot: &Slot)
        requires
            index < self@.num_slots(),
        ensures
            slot@ == self@.slots[index as int],
    {
        &self.slots[index]
    }

    /// Moves `head` on by one position, and `cur` with it.
    fn advance_next_slot(&mut self)
        requires
            old(self).wf(),
        ensures
            final(self).wf(),
            final(self)@ == old(self)@.advanced(),
            final(self)@.head == (old(self)@.head + 1) % old(self)@.num_slots(),
    {
        let num_slots = self.slots.len();
        let next_head = Ring::next_head(self.head(), num_slots);
        proof {
            lemma_next_head_is_increment_mod(self.head as int, num_slots as int);
        }
        self.head = next_head;
        self.cur = next_head;
    }

    /// The position that follows `head` in a ring of `num_slots` slots.
    pub fn next_head(head: usize, num_slots: usize) -> (next: usize)
        ensures
            next == spec_next_head(head as int, num_slots as int),
    {
        if num_slots == 0 || head >= num_slots - 1 {
            0
        } else {
            head + 1
        }
    }

    /// Whether the slot at `index` may be read through the window.
    ///
    /// The verdict depends on `head`, `tail`, the ring's size and `index`
    /// alone.
    pub fn valid_index(&self, index: usize) -> (valid: bool)
        ensures
            valid == in_window(
                self@.head as int,
                self@.tail as int,
                self@.num_slots() as int,
                index as int,
            ),
    {
        if self.head < self.tail {
            self.head <= index && index < self.tail
        } else {
            (self.head <= index && index < self.slots.len()) || index < self.tail
        }
    }

    /// The slot at `index`, which must lie inside the window.
    pub fn index(&self, index: usize) -> (slot: &Slot)
        requires
            self.wf(),
            self@.in_window(index as int),
        ensures
            slot@ == self@.slots[index as int],
    {
        &self.slots[index]
    }

    /// The slot at `index` if it lies inside the window, and else the
    /// violation, with the position asked for and the window's bounds.
    pub fn get(&self, index: usize) -> (slot: Result<&Slot, ContractViolation>)
        requires
            self.wf(),
        ensures
            slot is Ok <==> self@.in_window(index as int),
            slot matches Ok(s) ==> s@ == self@.slots[index as int],
            slot matches Err(e) ==> e.index == index && e.head == self@.head && e.tail
                == self@.tail,
    {
        if self.valid_index(index) {
            Ok(self.index(index))
        } else {
            Err(ContractViolation { index, head: self.head, tail: self.tail })
        }
    }

    /// Takes over the positions that the device reports of this ring.
    ///
    /// A report for a ring of another size, or with a position outside the
    /// ring, is refused and the ring stays as it was.
    pub fn sync(&mut self, state: &RingState) -> (accepted: bool)
        requires
            old(self).wf(),
        ensures
            final(self).wf(),
            accepted <==> state.wf() && state.num_slots == old(self)@.num_slots(),
            accepted ==> final(self)@ == old(self)@.synced(*state),
            !accepted ==> final(self)@ == old(self)@,
    {
        if !state.is_valid() || state.num_slots as usize != self.slots.len() {
            return false;
        }
        let (head, cur, tail) = Ring::get_positions(state);
        self.head = head;
        self.cur = cur;
        self.tail = tail;
        true
    }

    /// Records that the device stored `bytes` in the slot at `index`.
    ///
    /// A position outside the ring, or a packet that does not fit the slot,
    /// is refused and the ring stays as it was.
    pub fn fill_slot(&mut self, index: usize, bytes: &[u8]) -> (stored: bool)
        requires
            old(self).wf(),
        ensures
            final(self).wf(),
            stored <==> index < old(self)@.num_slots() && bytes@.len() <= old(
                self,
            )@.slots[index as int].capacity(),
            stored ==> final(self)@ == old(self)@.filled(index as int, bytes@),
            !stored ==> final(self)@ == old(self)@,
    {
        if index >= self.slots.len() {
            return false;
        }
        let stored = self.slots[index].fill(bytes);
        proof {
            if stored {
                assert(self@.slots =~= old(self)@.filled(index as int, bytes@).slots);
            } else {
                assert(self@.slots =~= old(self)@.slots);
            }
        }
        stored
    }
}

/// The verdict of the window check on a position depends on `head`, `tail`
/// and the position alone: two rings that agree on `head` and `tail` agree on
/// every position that both have.
pub proof fn lemma_window_check_depends_on_positions(a: RingView, b: RingView, index: int)
    requires
        a.head == b.head,
        a.tail == b.tail,
        0 <= index < a.num_slots(),
        index < b.num_slots(),
    ensures
        a.in_window(index) == b.in_window(index),
{
}

/// A position that passes the window check lies inside the ring.
pub proof fn lemma_window_lies_inside_ring(ring: RingView, index: int)
    requires
        ring.wf(),
        ring.in_window(index),
    ensures
        0 <= index < ring.num_slots(),
{
}

/// A ring with `head == tail` queues nothing.
pub proof fn lemma_empty_ring_queues_nothing(ring: RingView)
    requires
        ring.wf(),
    ensures
        ring.is_empty() <==> ring.queued().len() == 0,
        ring.queued().len() < ring.num_slots(),
{
    lemma_window_len_is_distance_mod(
        ring.head as int,
        ring.tail as int,
        ring.num_slots() as int,
    );
}

/// In a ring that is not empty, the slot at a position passes the window
/// check exactly when it is one of the queued slots.
pub proof fn lemma_in_window_iff_slot_queued(ring: RingView, index: int)
    requires
        ring.wf(),
        !ring.is_empty(),
        0 <= index < ring.num_slots(),
    ensures
        ring.in_window(index) <==> ring.queued().contains(ring.slots[index]),
{
    let head = ring.head as int;
    let n = ring.num_slots() as int;
    let q = ring.queued();
    if ring.in_window(index) {
        let k = window_rank(head, n, index);
        assert(0 <= k < q.len());
        assert(q[k] == ring.slots[index]);
    }
    if q.contains(ring.slots[index]) {
        let k = choose|k: int| 0 <= k < q.len() && q[k] == ring.slots[index];
        assert(ring.slots[window_at(head, n, k)].index == window_at(head, n, k));
        assert(ring.slots[index].index == index);
    }
}

/// Consuming a slot takes the first queued slot, the one at `head`, and
/// leaves the others queued in their order.
pub proof fn lemma_consumption_takes_first_queued(ring: RingView)
    requires
        ring.wf(),
        !ring.is_empty(),
    ensures
        ring.queued()[0] == ring.slots[ring.head as int],
        ring.advanced().queued() == ring.queued().drop_first(),
{
    assert(ring.advanced().queued() =~= ring.queued().drop_first());
}

/// One consumption leaves the ring well formed: `head` and `cur` stay inside
/// the ring, `head` moves on by exactly one position modulo the ring's size,
/// and neither `tail` nor the slots change.
pub proof fn lemma_consumption_keeps_positions_in_range(ring: RingView)
    requires
        ring.wf(),
    ensures
        ring.consumed().wf(),
        ring.consumed().tail == ring.tail,
        ring.consumed().slots == ring.slots,
        !ring.is_empty() ==> ring.consumed().head == (ring.head + 1) % ring.num_slots()
            && ring.consumed().cur == ring.consumed().head,
        ring.is_empty() ==> ring.consumed() == ring,
{
    lemma_next_head_is_increment_mod(ring.head as int, ring.num_slots() as int);
}

/// After any number of consumptions the ring is well formed, so `head` and
/// `cur` lie inside the ring; `tail` and the slots are what they were, and
/// as many slots left the queue as were asked for, until it is empty.
pub proof fn lemma_consumptions_keep_ring_well_formed(ring: RingView, k: nat)
    requires
        ring.wf(),
    ensures
        ring.consumed_times(k).wf(),
        ring.consumed_times(k).tail == ring.tail,
        ring.consumed_times(k).slots == ring.slots,
        k <= ring.queued().len() ==> ring.consumed_times(k).queued() == ring.queued().skip(
            k as int,
        ),
        k >= ring.queued().len() ==> ring.consumed_times(k).is_empty(),
    decreases k,
{
    lemma_empty_ring_queues_nothing(ring);
    if k == 0 {
        assert(ring.queued().skip(0) =~= ring.queued());
    } else {
        let next = ring.consumed();
        lemma_consumption_keeps_positions_in_range(ring);
        lemma_consumptions_keep_ring_well_formed(next, (k - 1) as nat);
        lemma_empty_ring_queues_nothing(next);
        if !ring.is_empty() {
            lemma_consumption_takes_first_queued(ring);
            if k <= ring.queued().len() {
                assert(ring.queued().drop_first().skip(k - 1) =~= ring.queued().skip(k as int));
            }
        }
    }
}

} // verus!
