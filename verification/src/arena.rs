//! A per-actor bump allocator: a fixed-capacity byte buffer with a cursor.
//! Values are appended and never freed one by one; `reset` reclaims the whole
//! buffer at once.

use vstd::prelude::*;

verus! {

/// Bounded, resettable scratch memory. The buffer length never changes;
/// `position` marks how much of it is in use.
pub struct Arena {
    buffer: Vec<u8>,
    position: usize,
}

impl Arena {
    /// Everything up to the cursor stays within the buffer.
    pub closed spec fn wf(&self) -> bool {
        self.position <= self.buffer@.len()
    }

    /// The fixed capacity, in bytes.
    pub closed spec fn spec_capacity(&self) -> nat {
        self.buffer@.len()
    }

    /// Bytes already allocated.
    pub closed spec fn spec_used(&self) -> nat {
        self.position as nat
    }

    /// The bytes stored so far, in allocation order.
    pub closed spec fn contents(&self) -> Seq<u8> {
        self.buffer@.take(self.position as int)
    }

    /// Makes an arena of `size` zeroed bytes, with nothing allocated.
    pub fn new(size: usize) -> (r: Self)
        ensures
            r.wf(),
            r.spec_capacity() == size,
            r.spec_used() == 0,
    {
        Arena { buffer: vec![0u8; size], position: 0 }
    }

    /// The fixed capacity, in bytes.
    pub fn capacity(&self) -> (r: usize)
        ensures
            r == self.spec_capacity(),
    {
        self.buffer.len()
    }

    /// Bytes already allocated.
    pub fn used(&self) -> (r: usize)
        ensures
            r == self.spec_used(),
    {
        self.position
    }

    /// Copies `value` into the arena and returns the offset it was placed at.
    /// A request that exceeds the remaining capacity fails and leaves the
    /// arena exactly as it was.
    pub fn allocate(&mut self, value: &[u8]) -> (r: Option<usize>)
        requires
            old(self).wf(),
        ensures
            final(self).wf(),
            final(self).spec_capacity() == old(self).spec_capacity(),
            value@.len() <= old(self).spec_capacity() - old(self).spec_used() ==> ({
                &&& r == Some(old(self).spec_used() as usize)
                &&& final(self).spec_used() == old(self).spec_used() + value@.len()
                &&& final(self).contents() == old(self).contents() + value@
            }),
            value@.len() > old(self).spec_capacity() - old(self).spec_used() ==> ({
                &&& r is None
                &&& *final(self) == *old(self)
            }),
    {
        if value.len() > self.buffer.len() - self.position {
            return None;
        }
        let off = self.position;
        let mut i: usize = 0;
        while i < value.len()
            invariant
                off + value@.len() <= self.buffer@.len(),
                self.buffer@.len() <= usize::MAX,
                i <= value@.len(),
                off == self.position,
                self.buffer@.len() == old(self).buffer@.len(),
                self.buffer@.take(off as int) == old(self).buffer@.take(off as int),
                self.buffer@.subrange(off as int, off + i) =~= value@.take(i as int),
            decreases value@.len() - i,
        {
            self.buffer.set(off + i, value[i]);
            proof {
                assert(self.buffer@.take(off as int) =~= old(self).buffer@.take(off as int));
                assert(self.buffer@.subrange(off as int, off + i + 1) =~= value@.take(i + 1));
            }
            i = i + 1;
        }
        self.position = off + value.len();
        proof {
            let n = value@.len() as int;
            assert(self.buffer@.take(off + n) =~= self.buffer@.take(off as int)
                + self.buffer@.subrange(off as int, off + n));
            assert(value@.take(n) =~= value@);
            assert(self.contents() =~= old(self).contents() + value@);
        }
        Some(off)
    }

    /// Reads back `len` bytes starting at `off`.
    pub fn read(&self, off: usize, len: usize) -> (r: Vec<u8>)
        requires
            self.wf(),
            off + len <= self.spec_used(),
        ensures
            r@ == self.contents().subrange(off as int, off + len),
    {
        let mut r: Vec<u8> = Vec::new();
        let mut i: usize = 0;
        while i < len
            invariant
                off + len <= self.position <= self.buffer@.len(),
                i <= len,
                r@ =~= self.buffer@.subrange(off as int, off + i),
            decreases len - i,
        {
            r.push(self.buffer[off + i]);
            i = i + 1;
        }
        proof {
            assert(r@ =~= self.contents().subrange(off as int, off + len));
        }
        r
    }

    /// Reclaims the whole arena: the full capacity is available again.
    pub fn reset(&mut self)
        ensures
            final(self).wf(),
            final(self).spec_capacity() == old(self).spec_capacity(),
            final(self).spec_used() == 0,
    {
        self.position = 0;
    }
}

} // verus!
