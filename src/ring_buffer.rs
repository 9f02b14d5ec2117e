//! The decode buffer: a fixed-capacity ring of bytes with a checkpoint.
//!
//! The bytes held run from the checkpoint to the write frontier. A read cursor
//! moves through them tentatively: `fwd` commits what it passed, `back` rolls
//! it back to the checkpoint.

use vstd::prelude::*;

verus! {

/// Number of bytes the ring can hold.
pub const CAPACITY: usize = 65535;

/// Position `i` bytes after index `base` in a ring of `CAPACITY` slots.
pub open spec fn slot(base: int, i: int) -> int {
    if base + i < CAPACITY {
        base + i
    } else {
        base + i - CAPACITY
    }
}

#[derive(Debug)]
pub struct RingBuffer {
    data: Vec<u8>,
    /// Index of the checkpoint.
    back: usize,
    /// Bytes passed by the read cursor since the checkpoint.
    read: usize,
    /// Bytes held from the checkpoint to the write frontier.
    held: usize,
}

impl View for RingBuffer {
    type V = Seq<u8>;

    /// The bytes held, from the checkpoint on.
    closed spec fn view(&self) -> Seq<u8> {
        Seq::new(self.held as nat, |i: int| self.data@[slot(self.back as int, i)])
    }
}

impl RingBuffer {
    pub closed spec fn wf(&self) -> bool {
        &&& self.data@.len() == CAPACITY
        &&& self.back < CAPACITY
        &&& self.read <= self.held <= CAPACITY
    }

    /// How far the read cursor is past the checkpoint.
    pub closed spec fn cursor(&self) -> nat {
        self.read as nat
    }

    pub fn new() -> (r: RingBuffer)
        ensures
            r.wf(),
            r@ == Seq::<u8>::empty(),
            r.cursor() == 0,
    {
        let r = RingBuffer { data: vec![0u8; CAPACITY], back: 0, read: 0, held: 0 };
        assert(r@ =~= Seq::<u8>::empty());
        r
    }

    /// Rolls the read cursor back to the checkpoint.
    pub fn back(&mut self)
        requires
            old(self).wf(),
        ensures
            final(self).wf(),
            final(self)@ == old(self)@,
            final(self).cursor() == 0,
    {
        self.read = 0;
        assert(self@ =~= old(self)@);
    }

    /// Commits the bytes the read cursor has passed: they are dropped and the
    /// checkpoint moves to the cursor.
    pub fn fwd(&mut self)
        requires
            old(self).wf(),
        ensures
            final(self).wf(),
            final(self)@ == old(self)@.skip(old(self).cursor() as int),
            final(self).cursor() == 0,
    {
        let back = if self.back + self.read < CAPACITY {
            self.back + self.read
        } else {
            self.back + self.read - CAPACITY
        };
        self.back = back;
        self.held = self.held - self.read;
        self.read = 0;
        assert(self@ =~= old(self)@.skip(old(self).cursor() as int));
    }

    /// Drops every byte held.
    pub fn clear(&mut self)
        requires
            old(self).wf(),
        ensures
            final(self).wf(),
            final(self)@ == Seq::<u8>::empty(),
            final(self).cursor() == 0,
    {
        self.back = 0;
        self.read = 0;
        self.held = 0;
        assert(self@ =~= Seq::<u8>::empty());
    }

    /// Room left for new bytes.
    pub fn free(&self) -> (r: usize)
        requires
            self.wf(),
        ensures
            r == CAPACITY - self@.len(),
    {
        CAPACITY - self.held
    }

    /// The bytes from the read cursor to the write frontier.
    pub fn unread(&self) -> (r: Vec<u8>)
        requires
            self.wf(),
        ensures
            r@ == self@.skip(self.cursor() as int),
    {
        let mut r: Vec<u8> = Vec::with_capacity(self.held - self.read);
        let mut i: usize = self.read;
        while i < self.held
            invariant
                self.wf(),
                self.read <= i <= self.held,
                r@ == self@.subrange(self.read as int, i as int),
            decreases self.held - i,
        {
            let k = if self.back + i < CAPACITY {
                self.back + i
            } else {
                self.back + i - CAPACITY
            };
            r.push(self.data[k]);
            i = i + 1;
            assert(r@ =~= self@.subrange(self.read as int, i as int));
        }
        assert(r@ =~= self@.skip(self.cursor() as int));
        r
    }

    /// Moves the read cursor `n` bytes forward.
    pub fn consume(&mut self, n: usize)
        requires
            old(self).wf(),
            old(self).cursor() + n <= old(self)@.len(),
        ensures
            final(self).wf(),
            final(self)@ == old(self)@,
            final(self).cursor() == old(self).cursor() + n,
    {
        self.read = self.read + n;
        assert(self@ =~= old(self)@);
    }

    /// Appends `bytes` at the write frontier.
    pub fn write(&mut self, bytes: &[u8])
        requires
            old(self).wf(),
            old(self)@.len() + bytes@.len() <= CAPACITY,
        ensures
            final(self).wf(),
            final(self)@ == old(self)@ + bytes@,
            final(self).cursor() == old(self).cursor(),
    {
        let mut i: usize = 0;
        while i < bytes.len()
            invariant
                self.wf(),
                i <= bytes@.len(),
                self.back == old(self).back,
                self.read == old(self).read,
                self.held == old(self).held + i,
                old(self)@.len() + bytes@.len() <= CAPACITY,
                self@ == old(self)@ + bytes@.take(i as int),
            decreases bytes@.len() - i,
        {
            let k = if self.back + self.held < CAPACITY {
                self.back + self.held
            } else {
                self.back + self.held - CAPACITY
            };
            let ghost before = self@;
            self.data.set(k, bytes[i]);
            self.held = self.held + 1;
            i = i + 1;
            assert(self@ =~= old(self)@ + bytes@.take(i as int)) by {
                assert forall|j: int| 0 <= j < before.len() implies #[trigger] self@[j] == before[j] by {
                    assert(slot(self.back as int, j) != k);
                }
            }
        }
        assert(bytes@.take(i as int) =~= bytes@);
    }
}

} // verus!
