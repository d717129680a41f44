//! Allocation of peer identifiers.
//!
//! Identifiers are handed out in increasing order from a counter. The counter
//! never wraps: once every `u16` from the first one up has been issued, the
//! allocator refuses, so no identifier is ever handed out twice.

use vstd::prelude::*;

verus! {

pub struct IdAllocator {
    /// The next identifier to hand out; `u16::MAX + 1` once all are issued.
    next: u32,
    /// The first identifier this allocator handed out.
    first: u16,
}

impl IdAllocator {
    pub closed spec fn wf(&self) -> bool {
        self.first <= self.next <= u16::MAX + 1
    }

    /// The identifiers handed out so far.
    pub closed spec fn issued(&self) -> Set<u16> {
        Set::new(|k: u16| self.first <= k < self.next)
    }

    /// The identifier that the next call of `next` hands out, if any.
    pub closed spec fn upcoming(&self) -> Option<u16> {
        if self.next <= u16::MAX {
            Some(self.next as u16)
        } else {
            None
        }
    }

    /// An allocator whose first identifier is 1.
    pub fn new() -> (r: IdAllocator)
        ensures
            r.wf(),
            r.issued() == Set::<u16>::empty(),
            r.upcoming() == Some(1u16),
    {
        let r = IdAllocator { next: 1, first: 1 };
        assert(r.issued() =~= Set::<u16>::empty());
        r
    }

    /// An allocator whose first identifier is `first`.
    pub fn starting_at(first: u16) -> (r: IdAllocator)
        ensures
            r.wf(),
            r.issued() == Set::<u16>::empty(),
            r.upcoming() == Some(first),
    {
        let r = IdAllocator { next: first as u32, first };
        assert(r.issued() =~= Set::<u16>::empty());
        r
    }

    /// Hands out an identifier never issued before, or `None` once none is left.
    pub fn next(&mut self) -> (r: Option<u16>)
        requires
            old(self).wf(),
        ensures
            final(self).wf(),
            r == old(self).upcoming(),
            match r {
                Some(id) => !old(self).issued().contains(id) && final(self).issued() == old(
                    self,
                ).issued().insert(id),
                None => final(self).issued() == old(self).issued() && final(self).upcoming()
                    is None,
            },
    {
        if self.next <= 0xffff {
            let id = self.next as u16;
            self.next = self.next + 1;
            assert(self.issued() =~= old(self).issued().insert(id));
            Some(id)
        } else {
            None
        }
    }
}

} // verus!
