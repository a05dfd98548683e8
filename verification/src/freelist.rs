//! Reclaiming (intrusive freelist) physical page-frame allocator.
//!
//! Freed frames form a singly-linked stack: in a running system each
//! freed frame's first machine word holds the address of the frame freed
//! before it, and the allocator keeps only the head. The model holds the
//! stack of freed frame addresses directly, newest last; `link_for` gives
//! the link word each freed frame would carry.

use vstd::prelude::*;

use crate::error::AllocError;

verus! {

/// The link word at the start of a freed frame: the address of the frame
/// freed before it, if any.
#[derive(Clone, Copy, PartialEq, Eq, Structural, Debug)]
pub struct FreelistEntry(pub Option<u64>);

/// Freelist page-frame allocator: frames are returned one at a time and
/// reused in reverse order of freeing.
pub struct FreelistPFA {
    pub frames: Vec<u64>,
    pub free_count: usize,
}

impl FreelistPFA {
    /// The freed frames, in order of freeing: the last is reused first.
    pub open spec fn view(self) -> Seq<u64> {
        self.frames@
    }

    /// Constructs an empty freelist.
    pub fn new() -> (r: Self)
        ensures
            r.view() == Seq::<u64>::empty(),
            r.free_count == 0,
    {
        Self { frames: Vec::new(), free_count: 0 }
    }

    /// The number of frames freed so far.
    pub fn len(&self) -> (r: usize)
        ensures
            r == self.free_count,
    {
        self.free_count
    }

    /// Hands back the most recently freed frame, or reports exhaustion
    /// with nothing changed when no freed frame is available.
    pub fn allocate(&mut self) -> (r: Result<u64, AllocError>)
        ensures
            match r {
                Ok(frame) => {
                    &&& old(self).view().len() > 0
                    &&& frame == old(self).view().last()
                    &&& final(self).view() == old(self).view().drop_last()
                    &&& final(self).free_count == old(self).free_count
                },
                Err(_) => {
                    &&& old(self).view().len() == 0
                    &&& final(self).view() == old(self).view()
                    &&& final(self).free_count == old(self).free_count
                },
            },
    {
        match self.frames.pop() {
            Some(f) => {
                proof {
                    assert(self.frames@ =~= old(self).frames@.drop_last());
                }
                Ok(f)
            },
            None => Err(AllocError),
        }
    }

    /// Links a frame into the freelist and counts the free.
    pub fn free(&mut self, frame: u64)
        requires
            old(self).free_count < usize::MAX,
        ensures
            final(self).view() == old(self).view().push(frame),
            final(self).free_count == old(self).free_count + 1,
    {
        self.frames.push(frame);
        self.free_count = self.free_count + 1;
    }

    /// The link word the `i`-th freed frame holds: the address of the
    /// frame freed just before it, or nothing for the first.
    pub fn link_for(&self, i: usize) -> (r: FreelistEntry)
        requires
            i < self.view().len(),
        ensures
            r == (if i == 0 {
                FreelistEntry(None)
            } else {
                FreelistEntry(Some(self.view()[i - 1]))
            }),
    {
        if i == 0 {
            FreelistEntry(None)
        } else {
            FreelistEntry(Some(self.frames[i - 1]))
        }
    }
}

/// A frame freed last is allocated first: after freeing `p` the next
/// allocation hands back `p` and restores the prior stack.
pub proof fn lemma_freelist_lifo(stack: Seq<u64>, p: u64)
    ensures
        stack.push(p).last() == p,
        stack.push(p).drop_last() == stack,
{
    assert(stack.push(p).drop_last() =~= stack);
}

/// Two frames freed in order come back in reverse order: freeing `p`
/// then `q`, the next two allocations hand back `q` then `p`.
pub proof fn lemma_freelist_reverse_order(stack: Seq<u64>, p: u64, q: u64)
    ensures
        stack.push(p).push(q).last() == q,
        stack.push(p).push(q).drop_last().last() == p,
        stack.push(p).push(q).drop_last().drop_last() == stack,
{
    assert(stack.push(p).push(q).drop_last() =~= stack.push(p));
    assert(stack.push(p).drop_last() =~= stack);
}

} // verus!
