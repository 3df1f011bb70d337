//! One buffer slot of a ring.

use vstd::prelude::*;
use vstd::slice::slice_subrange;

verus! {

/// What a [`Slot`] holds: its position in the ring, its whole buffer, and how
/// many bytes at the start of the buffer are valid.
pub struct SlotView {
    pub index: nat,
    pub buf: Seq<u8>,
    pub len: nat,
}

impl SlotView {
    /// The valid length never exceeds the buffer.
    pub open spec fn wf(self) -> bool {
        self.len <= self.buf.len()
    }

    /// The size of the buffer.
    pub open spec fn capacity(self) -> nat {
        self.buf.len()
    }

    /// The valid bytes: the first `len` bytes of the buffer.
    pub open spec fn bytes(self) -> Seq<u8> {
        self.buf.subrange(0, self.len as int)
    }

    /// The slot after the device stored `bytes` in it: they replace the start
    /// of the buffer, and the rest of the buffer keeps what it held.
    pub open spec fn filled(self, bytes: Seq<u8>) -> SlotView {
        SlotView {
            index: self.index,
            buf: bytes + self.buf.subrange(bytes.len() as int, self.buf.len() as int),
            len: bytes.len(),
        }
    }

    /// A slot at `index` with `capacity` zeroed bytes, none of them valid.
    pub open spec fn blank(index: nat, capacity: nat) -> SlotView {
        SlotView { index, buf: Seq::new(capacity, |i: int| 0u8), len: 0 }
    }
}

/// A fixed-capacity buffer at one position of a ring, with the length of the
/// packet that the device last stored in it.
#[derive(Debug)]
pub struct Slot {
    index: usize,
    buf: Vec<u8>,
    len: usize,
}

impl View for Slot {
    type V = SlotView;

    closed spec fn view(&self) -> SlotView {
        SlotView { index: self.index as nat, buf: self.buf@, len: self.len as nat }
    }
}

impl Slot {
    #[verifier::type_invariant]
    spec fn inv(&self) -> bool {
        self.len <= self.buf@.len()
    }

    /// Makes the slot at position `index` with a zeroed buffer of `capacity`
    /// bytes and no valid bytes.
    pub fn new(index: usize, capacity: usize) -> (slot: Slot)
        ensures
            slot@.wf(),
            slot@ == SlotView::blank(index as nat, capacity as nat),
    {
        let mut buf: Vec<u8> = Vec::new();
        while buf.len() < capacity
            invariant
                buf@.len() <= capacity,
                forall|i: int| 0 <= i < buf@.len() ==> buf@[i] == 0u8,
            decreases capacity - buf@.len(),
        {
            buf.push(0u8);
        }
        assert(buf@ =~= Seq::new(capacity as nat, |i: int| 0u8));
        Slot { index, buf, len: 0 }
    }

    /// The position of the slot in its ring.
    pub fn index(&self) -> (index: usize)
        ensures
            index == self@.index,
    {
        self.index
    }

    /// The size of the slot's buffer.
    pub fn capacity(&self) -> (capacity: usize)
        ensures
            capacity == self@.capacity(),
    {
        self.buf.len()
    }

    /// The valid bytes of the slot, without copying them.
    pub fn as_slice(&self) -> (bytes: &[u8])
        ensures
            self@.wf(),
            bytes@ == self@.bytes(),
    {
        proof {
            use_type_invariant(self);
        }
        slice_subrange(self.buf.as_slice(), 0, self.len())
    }

    /// The number of valid bytes.
    pub fn len(&self) -> (len: usize)
        ensures
            len == self@.len,
    {
        self.len
    }

    /// Whether the slot holds no valid byte.
    pub fn is_empty(&self) -> (empty: bool)
        ensures
            empty <==> self@.len == 0,
    {
        self.len() == 0
    }

    /// Records that the device stored `bytes` in the slot.
    ///
    /// A packet that does not fit the buffer is refused and the slot stays as
    /// it was.
    pub fn fill(&mut self, bytes: &[u8]) -> (stored: bool)
        ensures
            final(self)@.wf(),
            stored <==> bytes@.len() <= old(self)@.capacity(),
            stored ==> final(self)@ == old(self)@.filled(bytes@),
            !stored ==> final(self)@ == old(self)@,
    {
        proof {
            use_type_invariant(&*self);
        }
        let n: usize = bytes.len();
        if n > self.buf.len() {
            return false;
        }
        let ghost before = self.buf@;
        let mut i: usize = 0;
        while i < n
            invariant
                i <= n,
                n == bytes@.len(),
                n <= before.len(),
                self.buf@.len() == before.len(),
                self.index == old(self).index,
                self.len == old(self).len,
                self.len <= before.len(),
                forall|j: int| 0 <= j < i ==> self.buf@[j] == bytes@[j],
                forall|j: int| i <= j < before.len() ==> self.buf@[j] == before[j],
            decreases n - i,
        {
            self.buf[i] = bytes[i];
            i += 1;
        }
        self.len = n;
        assert(self.buf@ =~= bytes@ + before.subrange(n as int, before.len() as int));
        true
    }
}

} // verus!
