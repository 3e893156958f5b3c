//! An append-only store for many variable-length groups of elements.
//!
//! Conceptually a vector of vectors, but all elements live in one contiguous
//! backing array and each group is addressed by the starting offset of its
//! elements, so no per-group allocation is needed and iterating one group
//! stays cache-local. Only whole groups can be appended; nothing is ever
//! inserted, removed or reordered.

use vstd::prelude::*;
use vstd::slice::slice_subrange;

verus! {

/// A dense array of elements plus, for each group, the starting offset of
/// that group's elements within the array. Group `i` occupies
/// `[offsets[i], offsets[i + 1])`, the last group ending at the array's
/// length. Offsets are kept as 32-bit values: a procedure that overflows
/// them is pathologically large, and the builder treats that as fatal.
#[derive(Debug)]
pub struct ChunkVec<T> {
    data: Vec<T>,
    idxs: Vec<u32>,
}

impl<T> View for ChunkVec<T> {
    type V = Seq<Seq<T>>;

    /// The abstract value: the sequence of groups, each a sequence of
    /// elements.
    closed spec fn view(&self) -> Seq<Seq<T>> {
        Seq::new(self.idxs@.len(), |i: int| self.data@.subrange(self.start_of(i), self.end_of(i)))
    }
}

impl<T> ChunkVec<T> {
    /// The start offset of group `i`.
    pub closed spec fn start_of(&self, i: int) -> int {
        self.idxs@[i] as int
    }

    /// The end offset of group `i`: the next group's start, or the end of
    /// the backing array for the last group.
    pub closed spec fn end_of(&self, i: int) -> int {
        if i + 1 < self.idxs@.len() {
            self.idxs@[i + 1] as int
        } else {
            self.data@.len() as int
        }
    }

    /// The number of elements stored, over all groups together.
    pub closed spec fn total_len(&self) -> int {
        self.data@.len() as int
    }

    /// Well-formedness: offsets are non-decreasing, never exceed the backing
    /// array's length, and the backing array stays within the addressable
    /// 32-bit offset range.
    pub closed spec fn wf(&self) -> bool {
        &&& forall|i: int| 0 <= i < self.idxs@.len() ==> #[trigger] self.idxs@[i] as int
            <= self.data@.len()
        &&& forall|i: int, j: int|
            0 <= i <= j < self.idxs@.len() ==> #[trigger] self.idxs@[i] <= #[trigger] self.idxs@[j]
        &&& self.data@.len() <= u32::MAX
    }

    /// An empty store with no groups.
    pub fn new() -> (c: ChunkVec<T>)
        ensures
            c.wf(),
            c@ == Seq::<Seq<T>>::empty(),
            c.total_len() == 0,
    {
        let c = ChunkVec { data: Vec::new(), idxs: Vec::new() };
        proof {
            assert(c@ =~= Seq::<Seq<T>>::empty());
        }
        c
    }

    /// Append a whole group in one step; its identifier is the next
    /// sequential group index. This is the only mutating operation: a group,
    /// once closed, is never touched again.
    pub fn push(&mut self, items: Vec<T>) -> (i: usize)
        requires
            old(self).wf(),
            old(self).total_len() + items@.len() <= u32::MAX,
        ensures
            final(self).wf(),
            i == old(self)@.len(),
            final(self)@ == old(self)@.push(items@),
            final(self).total_len() == old(self).total_len() + items@.len(),
    {
        let ghost group = items@;
        let i = self.idxs.len();
        let off: u32 = self.data.len() as u32;
        self.idxs.push(off);
        let mut buf = items;
        self.data.append(&mut buf);
        proof {
            let pre = old(self);
            let n = pre@.len() as int;
            assert(off == pre.data@.len());
            assert(self.idxs@ == pre.idxs@.push(off));
            assert(self.data@ == pre.data@ + group);
            assert forall|k: int| 0 <= k < n implies self@[k] == pre@[k] by {
                assert(self.start_of(k) == pre.start_of(k));
                assert(self.end_of(k) == pre.end_of(k));
                assert(self@[k] =~= pre@[k]);
            }
            assert(self.start_of(n) == pre.data@.len());
            assert(self.end_of(n) == self.data@.len());
            assert(self@[n] =~= group);
            assert(self@ =~= pre@.push(group));
        }
        i
    }

    /// Append the group produced by `f`, which is called exactly once.
    pub fn push_into<F: FnOnce() -> Vec<T>>(&mut self, f: F) -> (i: usize)
        requires
            old(self).wf(),
            f.requires(()),
            forall|v: Vec<T>|
                #[trigger] f.ensures((), v) ==> old(self).total_len() + v@.len() <= u32::MAX,
        ensures
            final(self).wf(),
            i == old(self)@.len(),
            exists|v: Vec<T>|
                {
                    &&& #[trigger] f.ensures((), v)
                    &&& final(self)@ == old(self)@.push(v@)
                    &&& final(self).total_len() == old(self).total_len() + v@.len()
                },
    {
        let v = f();
        self.push(v)
    }

    /// The start offset of group `i` in the backing array.
    fn start(&self, i: usize) -> (s: usize)
        requires
            self.wf(),
            i < self@.len(),
        ensures
            s == self.start_of(i as int),
    {
        proof {
            assert(self@.len() == self.idxs@.len());
        }
        self.idxs[i] as usize
    }

    /// The end offset of group `i` in the backing array.
    fn end(&self, i: usize) -> (e: usize)
        requires
            self.wf(),
            i < self@.len(),
        ensures
            e == self.end_of(i as int),
    {
        proof {
            assert(self@.len() == self.idxs@.len());
        }
        let n = self.idxs.len();
        if i + 1 < n {
            self.idxs[i + 1] as usize
        } else {
            self.data.len()
        }
    }

    /// The range of backing-array offsets holding group `i`'s elements.
    pub fn extent(&self, i: usize) -> (r: (usize, usize))
        requires
            self.wf(),
            i < self@.len(),
        ensures
            r.0 == self.start_of(i as int),
            r.1 == self.end_of(i as int),
            r.0 <= r.1 <= self.total_len(),
    {
        (self.start(i), self.end(i))
    }

    /// The elements belonging to group `i`.
    pub fn index(&self, i: usize) -> (r: &[T])
        requires
            self.wf(),
            i < self@.len(),
        ensures
            r@ == self@[i as int],
    {
        let (s, e) = self.extent(i);
        slice_subrange(self.data.as_slice(), s, e)
    }
}

impl<T> ChunkVec<T> {
    /// Each group is a slice of the backing array: its length never exceeds
    /// the total element count, which fits the 32-bit offset range.
    pub proof fn lemma_group_len_bounded(&self, i: int)
        requires
            self.wf(),
            0 <= i < self@.len(),
        ensures
            0 <= self@[i].len() <= self.total_len() <= u32::MAX,
    {
        if i + 1 < self.idxs@.len() {
            assert(self.idxs@[i] <= self.idxs@[i + 1]);
        } else {
            assert(self.idxs@[i] as int <= self.data@.len());
        }
    }
}

impl<T> Default for ChunkVec<T> {
    /// An empty store with no groups.
    fn default() -> (c: Self)
        ensures
            c.wf(),
            c@ == Seq::<Seq<T>>::empty(),
            c.total_len() == 0,
    {
        ChunkVec::new()
    }
}

/// Reading groups back is exact: after any sequence of appends that took the
/// store's value from `base` to `base + groups`, the group numbered
/// `base.len() + i` is precisely `groups[i]`, whatever the group sizes —
/// empty groups included.
pub proof fn lemma_push_round_trip<T>(base: Seq<Seq<T>>, groups: Seq<Seq<T>>, i: int)
    requires
        0 <= i < groups.len(),
    ensures
        (base + groups)[base.len() + i] == groups[i],
{
}

} // verus!
