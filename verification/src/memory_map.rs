//! Fixed-capacity, sorted, non-overlapping map of labeled physical regions.
//!
//! The map is built incrementally: adding a region merges it with adjacent
//! regions of the same kind, removes regions it fully encloses, truncates
//! regions it partially overlaps, and synthesizes a free region for the far
//! remainder when it splits a region in two. Entries are stored in an
//! `arrayvec::ArrayVec` whose capacity is fixed at `MAP_CAPACITY`; an
//! addition that would exceed it fails with the map unchanged.

use vstd::prelude::*;

use arrayvec::ArrayVec;

use crate::memory_size::MemorySize;

verus! {

/// Fixed capacity of a memory map, in entries.
pub const MAP_CAPACITY: usize = 32;

/// The kind of a physical memory region.
#[derive(Clone, Copy, PartialEq, Eq, Structural, Debug)]
#[allow(non_camel_case_types)]
pub enum MemoryMapType {
    FREE,
    RESERVED,
    RECLAIM,
    KERNEL,
    STACK,
    MMIO,
}

impl MemoryMapType {
    /// A human-readable name for the region kind.
    pub fn to_string(&self) -> (r: &'static str) {
        match self {
            MemoryMapType::FREE => "Free",
            MemoryMapType::RESERVED => "Reserved",
            MemoryMapType::RECLAIM => "Reclaim",
            MemoryMapType::KERNEL => "Kernel",
            MemoryMapType::STACK => "Stack",
            MemoryMapType::MMIO => "MMIO",
        }
    }
}

/// One labeled physical region `[base_addr, end_addr)`.
#[derive(Clone, Copy, PartialEq, Eq, Structural, Debug)]
pub struct MemoryMapEntry {
    pub base_addr: usize,
    pub end_addr: usize,
    pub mem_type: MemoryMapType,
}

impl MemoryMapEntry {
    pub fn new(base_addr: usize, end_addr: usize, mem_type: MemoryMapType) -> (r: Self)
        ensures
            r == (MemoryMapEntry { base_addr, end_addr, mem_type }),
    {
        Self { base_addr, end_addr, mem_type }
    }

    /// Whether `other`'s base or end lies inside this half-open region.
    pub open spec fn spec_contains(self, other: Self) -> bool {
        ||| (self.base_addr <= other.base_addr && other.base_addr < self.end_addr)
        ||| (self.base_addr <= other.end_addr && other.end_addr < self.end_addr)
    }

    /// Whether `other` lies entirely within this region's closed bounds.
    pub open spec fn spec_fully_contains(self, other: Self) -> bool {
        &&& self.base_addr <= other.base_addr <= self.end_addr
        &&& self.base_addr <= other.end_addr <= self.end_addr
    }

    /// The result of cutting `other` out of this region: the truncated
    /// region, and the synthesized free far remainder if `other` splits it.
    pub open spec fn spec_reduce(self, other: Self) -> (Self, Option<Self>) {
        if self.spec_contains(other) {
            if other.base_addr <= self.base_addr {
                (
                    MemoryMapEntry {
                        base_addr: other.end_addr,
                        end_addr: self.end_addr,
                        mem_type: self.mem_type,
                    },
                    None,
                )
            } else if other.end_addr >= self.end_addr {
                (
                    MemoryMapEntry {
                        base_addr: self.base_addr,
                        end_addr: other.base_addr,
                        mem_type: self.mem_type,
                    },
                    None,
                )
            } else {
                (
                    MemoryMapEntry {
                        base_addr: self.base_addr,
                        end_addr: other.base_addr,
                        mem_type: self.mem_type,
                    },
                    Some(
                        MemoryMapEntry {
                            base_addr: other.end_addr,
                            end_addr: self.end_addr,
                            mem_type: MemoryMapType::FREE,
                        },
                    ),
                )
            }
        } else {
            (self, None)
        }
    }

    /// The region's extent in bytes.
    pub fn size(&self) -> (r: MemorySize)
        requires
            self.base_addr <= self.end_addr,
        ensures
            r.spec_bytes() == self.end_addr - self.base_addr,
    {
        MemorySize::new(self.end_addr - self.base_addr)
    }

    pub fn contains(&self, other: &Self) -> (r: bool)
        ensures
            r == self.spec_contains(*other),
    {
        (self.base_addr <= other.base_addr && other.base_addr < self.end_addr) || (self.base_addr
            <= other.end_addr && other.end_addr < self.end_addr)
    }

    pub fn fully_contains(&self, other: &Self) -> (r: bool)
        ensures
            r == self.spec_fully_contains(*other),
    {
        self.base_addr <= other.base_addr && other.base_addr <= self.end_addr && self.base_addr
            <= other.end_addr && other.end_addr <= self.end_addr
    }

    /// Cuts `other` out of this region in place, handing back the far free
    /// remainder if `other` splits the region in two.
    pub fn reduce(&mut self, other: &Self) -> (r: Option<Self>)
        ensures
            (*final(self), r) == old(self).spec_reduce(*other),
    {
        let mut new_block: Option<MemoryMapEntry> = None;
        if self.contains(other) {
            if other.base_addr <= self.base_addr {
                self.base_addr = other.end_addr;
            } else if other.end_addr >= self.end_addr {
                self.end_addr = other.base_addr;
            } else {
                let old_end = self.end_addr;
                self.end_addr = other.base_addr;
                new_block = Some(
                    MemoryMapEntry {
                        base_addr: other.end_addr,
                        end_addr: old_end,
                        mem_type: MemoryMapType::FREE,
                    },
                );
            }
        }
        new_block
    }
}

#[verifier::external_type_specification]
#[verifier::external_body]
#[verifier::reject_recursive_types(T)]
pub struct ExArrayVec<T, const CAP: usize>(ArrayVec<T, CAP>);

/// The sequence of entries an `ArrayVec` holds, in storage order.
pub uninterp spec fn stored_entries(v: ArrayVec<MemoryMapEntry, MAP_CAPACITY>) -> Seq<
    MemoryMapEntry,
>;

/// Relies on arrayvec::ArrayVec::new: a freshly created vector is empty.
#[verifier::external_body]
fn entries_new() -> (r: ArrayVec<MemoryMapEntry, MAP_CAPACITY>)
    ensures
        stored_entries(r) == Seq::<MemoryMapEntry>::empty(),
{
    ArrayVec::new()
}

/// Relies on arrayvec::ArrayVec::len: the number of stored elements.
#[verifier::external_body]
fn entries_len(v: &ArrayVec<MemoryMapEntry, MAP_CAPACITY>) -> (r: usize)
    ensures
        r == stored_entries(*v).len(),
{
    v.len()
}

/// Relies on arrayvec::ArrayVec::as_slice and slice indexing: reads the
/// element at `i`.
#[verifier::external_body]
fn entries_get(v: &ArrayVec<MemoryMapEntry, MAP_CAPACITY>, i: usize) -> (r: MemoryMapEntry)
    requires
        i < stored_entries(*v).len(),
    ensures
        r == stored_entries(*v)[i as int],
{
    v.as_slice()[i]
}

/// Relies on arrayvec::ArrayVec::push: appends the element at the end; the
/// vector must not be full, since a push at capacity does not return.
#[verifier::external_body]
fn entries_push(v: &mut ArrayVec<MemoryMapEntry, MAP_CAPACITY>, e: MemoryMapEntry)
    requires
        stored_entries(*old(v)).len() < MAP_CAPACITY,
    ensures
        stored_entries(*final(v)) == stored_entries(*old(v)).push(e),
{
    v.push(e)
}

/// Entries are in strictly ascending, pairwise disjoint order, and each is
/// non-empty.
pub open spec fn sorted_wf(s: Seq<MemoryMapEntry>) -> bool {
    &&& forall|i: int| 0 <= i < s.len() ==> (#[trigger] s[i]).base_addr < s[i].end_addr
    &&& forall|i: int, j: int|
        0 <= i < j < s.len() ==> (#[trigger] s[i]).end_addr <= (#[trigger] s[j]).base_addr
}

/// Whether some entry of `s` ends exactly where `e` begins and has `e`'s
/// kind: the left-adjacent merge candidate.
pub open spec fn has_left_neighbor(s: Seq<MemoryMapEntry>, e: MemoryMapEntry) -> bool {
    exists|i: int|
        0 <= i < s.len() && (#[trigger] s[i]).end_addr == e.base_addr && s[i].mem_type
            == e.mem_type
}

pub open spec fn left_neighbor(s: Seq<MemoryMapEntry>, e: MemoryMapEntry) -> MemoryMapEntry {
    s[choose|i: int|
        0 <= i < s.len() && (#[trigger] s[i]).end_addr == e.base_addr && s[i].mem_type
            == e.mem_type]
}

/// Whether some entry of `s` begins exactly where `e` ends and has `e`'s
/// kind: the right-adjacent merge candidate.
pub open spec fn has_right_neighbor(s: Seq<MemoryMapEntry>, e: MemoryMapEntry) -> bool {
    exists|i: int|
        0 <= i < s.len() && (#[trigger] s[i]).base_addr == e.end_addr && s[i].mem_type
            == e.mem_type
}

pub open spec fn right_neighbor(s: Seq<MemoryMapEntry>, e: MemoryMapEntry) -> MemoryMapEntry {
    s[choose|i: int|
        0 <= i < s.len() && (#[trigger] s[i]).base_addr == e.end_addr && s[i].mem_type
            == e.mem_type]
}

/// The new entry extended over its adjacent same-kind neighbors.
pub open spec fn merge_spec(s: Seq<MemoryMapEntry>, e: MemoryMapEntry) -> MemoryMapEntry {
    let b = if has_left_neighbor(s, e) {
        left_neighbor(s, e).base_addr
    } else {
        e.base_addr
    };
    let n = if has_right_neighbor(s, e) {
        right_neighbor(s, e).end_addr
    } else {
        e.end_addr
    };
    MemoryMapEntry { base_addr: b, end_addr: n, mem_type: e.mem_type }
}

/// What is left of a single existing entry after the merged entry `m` is
/// carved out of it: nothing if `m` encloses it, otherwise its truncated
/// part and, on a split, the synthesized free far remainder.
pub open spec fn entry_parts(x: MemoryMapEntry, m: MemoryMapEntry) -> Seq<MemoryMapEntry> {
    if m.spec_fully_contains(x) {
        Seq::empty()
    } else {
        let (first, second) = x.spec_reduce(m);
        match second {
            None => seq![first],
            Some(extra) => seq![first, extra],
        }
    }
}

/// All surviving parts of the existing entries, in storage order.
pub open spec fn processed(s: Seq<MemoryMapEntry>, m: MemoryMapEntry) -> Seq<MemoryMapEntry>
    decreases s.len(),
{
    if s.len() == 0 {
        Seq::empty()
    } else {
        processed(s.drop_last(), m) + entry_parts(s.last(), m)
    }
}

/// Index of the first surviving part that lies right of `m`.
pub open spec fn split_point(p: Seq<MemoryMapEntry>, m: MemoryMapEntry) -> int
    decreases p.len(),
{
    if p.len() == 0 {
        0
    } else if p[0].base_addr >= m.end_addr {
        0
    } else {
        1 + split_point(p.drop_first(), m)
    }
}

/// The full result of adding an entry: the surviving parts with the merged
/// entry inserted at its sorted position.
pub open spec fn add_result(s: Seq<MemoryMapEntry>, e: MemoryMapEntry) -> Seq<MemoryMapEntry> {
    let m = merge_spec(s, e);
    let p = processed(s, m);
    let k = split_point(p, m);
    p.subrange(0, k) + seq![m] + p.subrange(k, p.len() as int)
}

/// Bytes of the free and reclaimable entries, summed in storage order.
pub open spec fn free_bytes(s: Seq<MemoryMapEntry>) -> int
    decreases s.len(),
{
    if s.len() == 0 {
        0
    } else {
        let tail = if s.last().mem_type == MemoryMapType::FREE || s.last().mem_type
            == MemoryMapType::RECLAIM {
            s.last().end_addr - s.last().base_addr
        } else {
            0
        };
        free_bytes(s.drop_last()) + tail
    }
}

/// Bytes of all entries, summed in storage order.
pub open spec fn total_bytes(s: Seq<MemoryMapEntry>) -> int
    decreases s.len(),
{
    if s.len() == 0 {
        0
    } else {
        total_bytes(s.drop_last()) + (s.last().end_addr - s.last().base_addr)
    }
}

/// Sorted, non-overlapping set of labeled physical regions with a fixed
/// capacity of `MAP_CAPACITY` entries.
pub struct MemoryMap {
    pub entries: ArrayVec<MemoryMapEntry, MAP_CAPACITY>,
}

impl MemoryMap {
    /// The entries the map holds, in ascending address order.
    pub open spec fn view(self) -> Seq<MemoryMapEntry> {
        stored_entries(self.entries)
    }

    /// The entries fit the capacity and are sorted, disjoint and non-empty.
    pub open spec fn wf(self) -> bool {
        &&& self.view().len() <= MAP_CAPACITY
        &&& sorted_wf(self.view())
    }

    /// Constructs an empty map.
    pub fn new() -> (r: Self)
        ensures
            r.wf(),
            r.view() == Seq::<MemoryMapEntry>::empty(),
    {
        Self { entries: entries_new() }
    }

    /// The number of entries the map currently holds.
    pub fn entry_count(&self) -> (r: usize)
        ensures
            r == self.view().len(),
    {
        entries_len(&self.entries)
    }

    /// The entry at position `i`, in ascending address order.
    pub fn get_entry(&self, i: usize) -> (r: MemoryMapEntry)
        requires
            i < self.view().len(),
        ensures
            r == self.view()[i as int],
    {
        entries_get(&self.entries, i)
    }

    /// Total bytes held by free and reclaimable entries.
    pub fn get_free_mem(&self) -> (r: usize)
        requires
            self.wf(),
        ensures
            r == free_bytes(self.view()),
    {
        let n = entries_len(&self.entries);
        let mut bytes: usize = 0;
        let mut i: usize = 0;
        while i < n
            invariant
                self.wf(),
                n == self.view().len(),
                i <= n,
                bytes == free_bytes(self.view().subrange(0, i as int)),
            decreases n - i,
        {
            let e = entries_get(&self.entries, i);
            proof {
                let s = self.view();
                let sub1 = s.subrange(0, i + 1);
                assert(sub1.drop_last() =~= s.subrange(0, i as int));
                assert(sub1.last() == s[i as int]);
                lemma_prefix_sums_fit(s, i + 1);
            }
            if matches!(e.mem_type, MemoryMapType::FREE | MemoryMapType::RECLAIM) {
                bytes = bytes + (e.end_addr - e.base_addr);
            }
            i = i + 1;
        }
        proof {
            assert(self.view().subrange(0, n as int) =~= self.view());
        }
        bytes
    }

    /// Total bytes held by all entries.
    pub fn get_total_mem(&self) -> (r: usize)
        requires
            self.wf(),
        ensures
            r == total_bytes(self.view()),
    {
        let n = entries_len(&self.entries);
        let mut bytes: usize = 0;
        let mut i: usize = 0;
        while i < n
            invariant
                self.wf(),
                n == self.view().len(),
                i <= n,
                bytes == total_bytes(self.view().subrange(0, i as int)),
            decreases n - i,
        {
            let e = entries_get(&self.entries, i);
            proof {
                let s = self.view();
                let sub1 = s.subrange(0, i + 1);
                assert(sub1.drop_last() =~= s.subrange(0, i as int));
                assert(sub1.last() == s[i as int]);
                lemma_prefix_sums_fit(s, i + 1);
            }
            bytes = bytes + (e.end_addr - e.base_addr);
            i = i + 1;
        }
        proof {
            assert(self.view().subrange(0, n as int) =~= self.view());
        }
        bytes
    }

    /// Index of the entry that ends at `entry`'s base with `entry`'s kind.
    fn find_left_neighbor(&self, entry: &MemoryMapEntry) -> (r: Option<usize>)
        requires
            self.wf(),
        ensures
            match r {
                Some(i) => i < self.view().len() && self.view()[i as int].end_addr
                    == entry.base_addr && self.view()[i as int].mem_type == entry.mem_type,
                None => !has_left_neighbor(self.view(), *entry),
            },
    {
        let n = entries_len(&self.entries);
        let mut i: usize = 0;
        while i < n
            invariant
                self.wf(),
                n == self.view().len(),
                i <= n,
                forall|t: int|
                    0 <= t < i ==> !((#[trigger] self.view()[t]).end_addr == entry.base_addr
                        && self.view()[t].mem_type == entry.mem_type),
            decreases n - i,
        {
            let x = entries_get(&self.entries, i);
            if x.end_addr == entry.base_addr && x.mem_type == entry.mem_type {
                return Some(i);
            }
            i = i + 1;
        }
        None
    }

    /// Index of the entry that begins at `entry`'s end with `entry`'s kind.
    fn find_right_neighbor(&self, entry: &MemoryMapEntry) -> (r: Option<usize>)
        requires
            self.wf(),
        ensures
            match r {
                Some(i) => i < self.view().len() && self.view()[i as int].base_addr
                    == entry.end_addr && self.view()[i as int].mem_type == entry.mem_type,
                None => !has_right_neighbor(self.view(), *entry),
            },
    {
        let n = entries_len(&self.entries);
        let mut i: usize = 0;
        while i < n
            invariant
                self.wf(),
                n == self.view().len(),
                i <= n,
                forall|t: int|
                    0 <= t < i ==> !((#[trigger] self.view()[t]).base_addr == entry.end_addr
                        && self.view()[t].mem_type == entry.mem_type),
            decreases n - i,
        {
            let x = entries_get(&self.entries, i);
            if x.base_addr == entry.end_addr && x.mem_type == entry.mem_type {
                return Some(i);
            }
            i = i + 1;
        }
        None
    }

    /// Adds a region to the map: merges it with adjacent same-kind regions,
    /// removes regions it fully encloses, truncates partial overlaps and
    /// synthesizes a free far remainder on a split. Fails with the map
    /// unchanged when the result would exceed the fixed capacity.
    pub fn add_entry(&mut self, entry: MemoryMapEntry) -> (r: bool)
        requires
            old(self).wf(),
            entry.base_addr < entry.end_addr,
        ensures
            final(self).wf(),
            r ==> final(self).view() == add_result(old(self).view(), entry),
            r <==> add_result(old(self).view(), entry).len() <= MAP_CAPACITY,
            !r ==> *final(self) == *old(self),
    {
        let ghost s = self.view();
        let n = entries_len(&self.entries);
        let mut m = entry;

        // Extend over adjacent same-kind regions; the enlarged entry then
        // fully encloses them, so the carving pass below removes them.
        proof {
            lemma_neighbors_unique(s, entry);
        }
        match self.find_left_neighbor(&entry) {
            Some(i) => {
                let x = entries_get(&self.entries, i);
                m.base_addr = x.base_addr;
                proof {
                    assert(has_left_neighbor(s, entry));
                    assert(left_neighbor(s, entry) == s[i as int]);
                }
            },
            None => {},
        }
        match self.find_right_neighbor(&entry) {
            Some(i) => {
                let x = entries_get(&self.entries, i);
                m.end_addr = x.end_addr;
                proof {
                    assert(has_right_neighbor(s, entry));
                    assert(right_neighbor(s, entry) == s[i as int]);
                }
            },
            None => {},
        }
        proof {
            assert(m == merge_spec(s, entry));
            assert(m.base_addr < m.end_addr);
        }

        // Collect what survives of the existing entries.
        let mut parts: Vec<MemoryMapEntry> = Vec::new();
        let mut i: usize = 0;
        while i < n
            invariant
                self.wf(),
                self.view() == s,
                n == s.len(),
                i <= n,
                parts@ == processed(s.subrange(0, i as int), m),
            decreases n - i,
        {
            let mut x = entries_get(&self.entries, i);
            let ghost prev = parts@;
            proof {
                let sub1 = s.subrange(0, i + 1);
                assert(sub1.drop_last() =~= s.subrange(0, i as int));
                assert(sub1.last() == s[i as int]);
            }
            if !m.fully_contains(&x) {
                let extra = x.reduce(&m);
                parts.push(x);
                if let Some(e) = extra {
                    parts.push(e);
                    proof {
                        assert(prev.push(x).push(e) =~= prev + entry_parts(s[i as int], m));
                    }
                } else {
                    proof {
                        assert(prev.push(x) =~= prev + entry_parts(s[i as int], m));
                    }
                }
            } else {
                proof {
                    assert(prev =~= prev + entry_parts(s[i as int], m));
                }
            }
            i = i + 1;
        }
        proof {
            assert(s.subrange(0, n as int) =~= s);
            lemma_processed_props(s, m);
        }

        // The merged region goes in front of the first part right of it.
        let k = find_split(&parts, &m);
        proof {
            lemma_split_point_is_first(parts@, m, k as int);
        }

        if parts.len() >= MAP_CAPACITY {
            proof {
                assert(add_result(s, entry).len() == parts@.len() + 1);
            }
            return false;
        }

        // Rebuild the map in sorted order; the original is untouched until
        // the whole result is known to fit.
        let mut temp = entries_new();
        let mut t: usize = 0;
        while t < k
            invariant
                parts@ == processed(s, m),
                k <= parts@.len() < MAP_CAPACITY,
                t <= k,
                stored_entries(temp) == parts@.subrange(0, t as int),
            decreases k - t,
        {
            entries_push(&mut temp, parts[t]);
            proof {
                assert(parts@.subrange(0, t as int).push(parts@[t as int]) =~= parts@.subrange(
                    0,
                    t + 1,
                ));
            }
            t = t + 1;
        }
        entries_push(&mut temp, m);
        let mut t: usize = k;
        while t < parts.len()
            invariant
                parts@ == processed(s, m),
                k <= parts@.len() < MAP_CAPACITY,
                k <= t <= parts@.len(),
                stored_entries(temp) == parts@.subrange(0, k as int) + seq![m] + parts@.subrange(
                    k as int,
                    t as int,
                ),
            decreases parts@.len() - t,
        {
            entries_push(&mut temp, parts[t]);
            proof {
                assert((parts@.subrange(0, k as int) + seq![m] + parts@.subrange(
                    k as int,
                    t as int,
                )).push(parts@[t as int]) =~= parts@.subrange(0, k as int) + seq![m]
                    + parts@.subrange(k as int, t + 1));
            }
            t = t + 1;
        }
        self.entries = temp;
        proof {
            assert(self.view() == add_result(s, entry));
            lemma_add_result_wf(s, entry, m);
        }
        true
    }
}

/// Index of the first part that lies right of the merged region `m`.
fn find_split(parts: &Vec<MemoryMapEntry>, m: &MemoryMapEntry) -> (k: usize)
    ensures
        0 <= k <= parts@.len(),
        forall|t: int| 0 <= t < k ==> (#[trigger] parts@[t]).base_addr < m.end_addr,
        k < parts@.len() ==> parts@[k as int].base_addr >= m.end_addr,
{
    let mut k: usize = 0;
    while k < parts.len()
        invariant
            k <= parts@.len(),
            forall|t: int| 0 <= t < k ==> (#[trigger] parts@[t]).base_addr < m.end_addr,
        decreases parts@.len() - k,
    {
        if parts[k].base_addr >= m.end_addr {
            return k;
        }
        k = k + 1;
    }
    k
}

/// In a sorted map at most one entry can end (or begin) at a given address,
/// so the merge neighbors are unique.
proof fn lemma_neighbors_unique(s: Seq<MemoryMapEntry>, e: MemoryMapEntry)
    requires
        sorted_wf(s),
    ensures
        forall|i: int, j: int|
            0 <= i < s.len() && 0 <= j < s.len() && (#[trigger] s[i]).end_addr == e.base_addr && (
            #[trigger] s[j]).end_addr == e.base_addr ==> i == j,
        forall|i: int, j: int|
            0 <= i < s.len() && 0 <= j < s.len() && (#[trigger] s[i]).base_addr == e.end_addr && (
            #[trigger] s[j]).base_addr == e.end_addr ==> i == j,
{
}

/// The surviving parts are sorted, non-empty, disjoint, each lies entirely
/// left or right of the merged region, and all lie within the source span.
proof fn lemma_processed_props(s: Seq<MemoryMapEntry>, m: MemoryMapEntry)
    requires
        sorted_wf(s),
        m.base_addr < m.end_addr,
    ensures
        sorted_wf(processed(s, m)),
        forall|j: int|
            0 <= j < processed(s, m).len() ==> (#[trigger] processed(s, m)[j]).end_addr
                <= m.base_addr || processed(s, m)[j].base_addr >= m.end_addr,
        forall|j: int|
            s.len() > 0 && 0 <= j < processed(s, m).len() ==> (#[trigger] processed(
                s,
                m,
            )[j]).base_addr >= s[0].base_addr && processed(s, m)[j].end_addr <= s.last().end_addr,
    decreases s.len(),
{
    if s.len() > 0 {
        let butlast = s.drop_last();
        assert(sorted_wf(butlast)) by {
            assert(forall|i: int| 0 <= i < butlast.len() ==> butlast[i] == s[i]);
        }
        lemma_processed_props(butlast, m);
        let x = s.last();
        let xp = entry_parts(x, m);
        let bp = processed(butlast, m);
        assert(processed(s, m) == bp + xp);
        // Each part of x stays within x's bounds and avoids m's interior.
        assert(forall|j: int|
            0 <= j < xp.len() ==> (#[trigger] xp[j]).base_addr >= x.base_addr && xp[j].end_addr
                <= x.end_addr && xp[j].base_addr < xp[j].end_addr && (xp[j].end_addr <= m.base_addr
                || xp[j].base_addr >= m.end_addr)) by {
            if !m.spec_fully_contains(x) {
                if x.spec_contains(m) {
                } else {
                    // x neither holds one of m's edges nor is enclosed by m,
                    // so the two are disjoint.
                    assert(x.end_addr <= m.base_addr || x.base_addr >= m.end_addr);
                }
            }
        }
        assert(xp.len() == 2 ==> xp[0].end_addr <= xp[1].base_addr);
        if butlast.len() > 0 {
            assert(butlast.last() == s[s.len() - 2]);
            assert(s[s.len() - 2].end_addr <= x.base_addr);
            assert(forall|j: int|
                0 <= j < bp.len() ==> (#[trigger] bp[j]).end_addr <= x.base_addr);
        }
    }
}

/// The scan for the first part right of the merged region computes the
/// spec-level split point.
proof fn lemma_split_point_is_first(p: Seq<MemoryMapEntry>, m: MemoryMapEntry, k: int)
    requires
        0 <= k <= p.len(),
        forall|t: int| 0 <= t < k ==> (#[trigger] p[t]).base_addr < m.end_addr,
        k < p.len() ==> p[k].base_addr >= m.end_addr,
    ensures
        split_point(p, m) == k,
    decreases k,
{
    if k > 0 {
        lemma_split_point_is_first(p.drop_first(), m, k - 1);
        assert(forall|t: int| 0 <= t < k - 1 ==> p.drop_first()[t] == p[t + 1]);
    }
}

/// The result of an addition keeps the map sorted, disjoint and non-empty.
proof fn lemma_add_result_wf(s: Seq<MemoryMapEntry>, e: MemoryMapEntry, m: MemoryMapEntry)
    requires
        sorted_wf(s),
        e.base_addr < e.end_addr,
        m == merge_spec(s, e),
        m.base_addr < m.end_addr,
    ensures
        sorted_wf(add_result(s, e)),
{
    let p = processed(s, m);
    let k = split_point(p, m);
    lemma_processed_props(s, m);
    lemma_split_point_bounds(p, m);
    let r = add_result(s, e);
    assert(r.len() == p.len() + 1);
    assert(forall|i: int| 0 <= i < k ==> r[i] == p[i]);
    assert(r[k] == m);
    assert(forall|i: int| k < i < r.len() ==> r[i] == p[i - 1]);
    assert(forall|i: int| 0 <= i < k ==> (#[trigger] p[i]).base_addr < m.end_addr);
    assert(forall|i: int| 0 <= i < k ==> (#[trigger] p[i]).end_addr <= m.base_addr);
    assert(forall|i: int| k <= i < p.len() ==> (#[trigger] p[i]).base_addr >= m.end_addr) by {
        if k < p.len() {
            assert(p[k].base_addr >= m.end_addr);
            assert(forall|i: int|
                k < i < p.len() ==> (#[trigger] p[i]).base_addr >= p[k].end_addr);
            assert(p[k].base_addr < p[k].end_addr);
        }
    }
}

/// The split point lies within the parts, everything before it lies left of
/// the merged region and the part at it (if any) lies right of it.
proof fn lemma_split_point_bounds(p: Seq<MemoryMapEntry>, m: MemoryMapEntry)
    ensures
        0 <= split_point(p, m) <= p.len(),
        forall|t: int| 0 <= t < split_point(p, m) ==> (#[trigger] p[t]).base_addr < m.end_addr,
        split_point(p, m) < p.len() ==> p[split_point(p, m)].base_addr >= m.end_addr,
    decreases p.len(),
{
    if p.len() > 0 && p[0].base_addr < m.end_addr {
        lemma_split_point_bounds(p.drop_first(), m);
        let sp = split_point(p, m);
        assert(sp == 1 + split_point(p.drop_first(), m));
        assert(forall|t: int| 1 <= t < sp ==> p[t] == p.drop_first()[t - 1]);
    }
}

/// Sums over a sorted, disjoint map are bounded by its address span, so
/// they fit the machine word.
proof fn lemma_bytes_bounds(s: Seq<MemoryMapEntry>)
    requires
        sorted_wf(s),
    ensures
        0 <= free_bytes(s) <= total_bytes(s),
        s.len() == 0 ==> total_bytes(s) == 0,
        s.len() > 0 ==> total_bytes(s) <= s.last().end_addr - s[0].base_addr,
    decreases s.len(),
{
    if s.len() > 0 {
        let butlast = s.drop_last();
        assert(sorted_wf(butlast)) by {
            assert(forall|i: int| 0 <= i < butlast.len() ==> butlast[i] == s[i]);
        }
        lemma_bytes_bounds(butlast);
        if butlast.len() > 0 {
            assert(butlast.last() == s[s.len() - 2]);
            assert(s[s.len() - 2].end_addr <= s.last().base_addr);
        }
    }
}

/// Every prefix sum fits the machine word.
proof fn lemma_prefix_sums_fit(s: Seq<MemoryMapEntry>, i: int)
    requires
        sorted_wf(s),
        0 <= i <= s.len(),
    ensures
        0 <= free_bytes(s.subrange(0, i)) <= total_bytes(s.subrange(0, i)),
        total_bytes(s.subrange(0, i)) <= usize::MAX,
{
    let pre = s.subrange(0, i);
    assert(sorted_wf(pre)) by {
        assert(forall|t: int| 0 <= t < pre.len() ==> pre[t] == s[t]);
    }
    lemma_bytes_bounds(pre);
}

} // verus!
