//! Multi-level (4-level, 48-bit) hardware translation-table builder.
//!
//! The builder owns every table it allocates: each table is one 4KiB frame
//! obtained from a bump frame allocator, held here together with its
//! physical address and its 512 raw descriptors — exactly the words the
//! hardware walker reads once the root is installed. `lookup` is the
//! specification of that walker: it resolves a virtual address through the
//! descriptor words alone, and every mapping call is verified against it.
//!
//! A live terminal descriptor is never overwritten in place: mapping an
//! already-mapped range fails with `AlreadyMapped`, which callers of the
//! bring-up sequence treat as fatal.

use vstd::prelude::*;

use crate::address_space::AddressTranslation;
use crate::bump::BumpPFA;
use crate::descriptor::{
    de_valid, de_table, de_next_table, de_block_out_l1, de_block_out_l2, de_page_out, de_attr_idx,
    de_af, l0_index, l1_index, l2_index, l3_index, off_1gib, off_2mib, off_4kib, same_page,
    same_2mib_region, same_1gib_region, lemma_index_bounds, lemma_out_bounds,
    descriptor_is_valid, descriptor_is_table, descriptor_next_table, descriptor_block_out_l1,
    descriptor_block_out_l2, descriptor_page_out, offset_1gib, offset_2mib, offset_4kib,
    make_table_descriptor,
    make_block_descriptor_l1, make_block_descriptor_l2, make_page_descriptor, level0_index,
    level1_index, level2_index, level3_index, SIZE_4KIB, SIZE_2MIB, SIZE_1GIB, PHYS_LIMIT,
};
use crate::error::AddressSpaceError;
use crate::memory_attribute::{MemoryAttributes, spec_attr_index, translate_memory_attrib};

verus! {

/// One translation table: a 4KiB frame of 512 raw descriptors, at a known
/// physical address, serving one level of the walk.
pub struct TableFrame {
    pub phys: u64,
    pub level: Ghost<int>,
    pub entries: Vec<u64>,
}

pub open spec fn table_frame_wf(t: TableFrame) -> bool {
    &&& t.entries.len() == 512
    &&& t.phys % SIZE_4KIB == 0
    &&& t.phys < PHYS_LIMIT
    &&& 0 <= t.level@ <= 3
}

/// Some table of the set sits at physical address `phys` and serves level
/// `lvl`.
pub open spec fn has_table_at(ts: Seq<TableFrame>, phys: u64, lvl: int) -> bool {
    exists|j: int| 0 <= j < ts.len() && (#[trigger] ts[j]).phys == phys && ts[j].level@ == lvl
}

/// The index of the table at physical address `phys`; under distinctness
/// of physical addresses it is the only one.
pub open spec fn table_index_of(ts: Seq<TableFrame>, phys: u64) -> int {
    choose|j: int| 0 <= j < ts.len() && (#[trigger] ts[j]).phys == phys
}

/// The table index a 48-bit virtual address selects at each level.
pub open spec fn level_index(virt: u64, lvl: int) -> u64 {
    if lvl == 0 {
        l0_index(virt)
    } else if lvl == 1 {
        l1_index(virt)
    } else if lvl == 2 {
        l2_index(virt)
    } else {
        l3_index(virt)
    }
}

/// The two addresses select the same slots at every level up to `lvl`.
pub open spec fn same_indices_to(a: u64, b: u64, lvl: int) -> bool {
    forall|l2: int| 0 <= l2 <= lvl ==> level_index(a, l2) == level_index(b, l2)
}

/// The table the hardware walker reads at level `lvl` when resolving
/// `virt`: the root at level 0, then whatever each level's slot links to.
pub open spec fn reached(ts: Seq<TableFrame>, virt: u64, lvl: int) -> Option<int>
    decreases lvl,
{
    if lvl <= 0 {
        if ts.len() > 0 {
            Some(0)
        } else {
            None
        }
    } else {
        match reached(ts, virt, lvl - 1) {
            None => None,
            Some(ti) => {
                if 0 <= ti < ts.len() {
                    let d = ts[ti].entries@[level_index(virt, lvl - 1) as int];
                    if ts[ti].level@ == lvl - 1 && de_valid(d) && de_table(d) && has_table_at(
                        ts,
                        de_next_table(d),
                        lvl,
                    ) {
                        Some(table_index_of(ts, de_next_table(d)))
                    } else {
                        None
                    }
                } else {
                    None
                }
            },
        }
    }
}

/// The descriptor the walk reads at level `lvl` for `virt`; zero when the
/// walk does not reach that level.
pub open spec fn path_entry(ts: Seq<TableFrame>, virt: u64, lvl: int) -> u64 {
    match reached(ts, virt, lvl) {
        Some(ti) => ts[ti].entries@[level_index(virt, lvl) as int],
        None => 0,
    }
}

/// What the hardware walker would return for `virt`: the physical address
/// mapped by the first terminal descriptor on the path — a level-1 block
/// (1GiB), a level-2 block (2MiB) or a level-3 page — or nothing.
pub open spec fn lookup(ts: Seq<TableFrame>, virt: u64) -> Option<u64> {
    match reached(ts, virt, 1) {
        None => None,
        Some(_) => {
            let d1 = path_entry(ts, virt, 1);
            if !de_valid(d1) {
                None
            } else if !de_table(d1) {
                Some((de_block_out_l1(d1) + off_1gib(virt)) as u64)
            } else {
                match reached(ts, virt, 2) {
                    None => None,
                    Some(_) => {
                        let d2 = path_entry(ts, virt, 2);
                        if !de_valid(d2) {
                            None
                        } else if !de_table(d2) {
                            Some((de_block_out_l2(d2) + off_2mib(virt)) as u64)
                        } else {
                            match reached(ts, virt, 3) {
                                None => None,
                                Some(_) => {
                                    let d3 = path_entry(ts, virt, 3);
                                    if de_valid(d3) && de_table(d3) {
                                        Some((de_page_out(d3) + off_4kib(virt)) as u64)
                                    } else {
                                        None
                                    }
                                },
                            }
                        }
                    },
                }
            }
        },
    }
}

/// A single descriptor is well-formed for the level of the table holding
/// it: empty, a resolvable link to a next-level table, a block at level 1
/// or 2, or a page at level 3.
pub open spec fn spec_entry_wf(ts: Seq<TableFrame>, lvl: int, d: u64) -> bool {
    ||| d == 0
    ||| (de_valid(d) && de_table(d) && lvl < 3 && has_table_at(ts, de_next_table(d), lvl + 1))
    ||| (de_valid(d) && !de_table(d) && (lvl == 1 || lvl == 2))
    ||| (de_valid(d) && de_table(d) && lvl == 3)
}

/// The slot `(i, k)` holds a live link to a next-level table.
pub open spec fn is_link(ts: Seq<TableFrame>, i: int, k: int) -> bool {
    &&& 0 <= i < ts.len()
    &&& 0 <= k < 512
    &&& ts[i].level@ < 3
    &&& de_valid(ts[i].entries@[k])
    &&& de_table(ts[i].entries@[k])
}

/// The table-side well-formedness of a builder: a root at level 0, every
/// frame well-formed at a distinct physical address, every descriptor
/// fitting its level, and no two live links sharing a target.
pub open spec fn tables_wf(ts: Seq<TableFrame>) -> bool {
    &&& ts.len() >= 1
    &&& ts[0].level@ == 0
    &&& forall|i: int| 0 <= i < ts.len() ==> table_frame_wf(#[trigger] ts[i])
    &&& forall|i: int, j: int|
        0 <= i < j < ts.len() ==> (#[trigger] ts[i]).phys != (#[trigger] ts[j]).phys
    &&& forall|i: int, k: int|
        0 <= i < ts.len() && 0 <= k < 512 ==> spec_entry_wf(
            ts,
            ts[i].level@,
            (#[trigger] ts[i].entries@[k]),
        )
    &&& forall|i: int, k: int, i2: int, k2: int|
        is_link(ts, i, k) && is_link(ts, i2, k2) && de_next_table(
            #[trigger] ts[i].entries@[k],
        ) == de_next_table(#[trigger] ts[i2].entries@[k2]) ==> i == i2 && k == k2
}

/// `ts2` is `ts1` with the single descriptor at `(ti, k)` replaced.
pub open spec fn updated_at(ts1: Seq<TableFrame>, ts2: Seq<TableFrame>, ti: int, k: int) -> bool {
    &&& ts2.len() == ts1.len()
    &&& 0 <= ti < ts1.len()
    &&& 0 <= k < 512
    &&& forall|j: int| 0 <= j < ts1.len() && j != ti ==> ts2[j] == ts1[j]
    &&& ts2[ti].phys == ts1[ti].phys
    &&& ts2[ti].level@ == ts1[ti].level@
    &&& ts2[ti].entries@ == ts1[ti].entries@.update(k, ts2[ti].entries@[k])
}

/// `ts2` is `ts1` with a fresh, zeroed next-level table appended and the
/// previously empty slot `(ti, k)` turned into a link to it.
pub open spec fn link_pushed(ts1: Seq<TableFrame>, ts2: Seq<TableFrame>, ti: int, k: int) -> bool {
    &&& ts2.len() == ts1.len() + 1
    &&& 0 <= ti < ts1.len()
    &&& 0 <= k < 512
    &&& forall|j: int| 0 <= j < ts1.len() && j != ti ==> ts2[j] == ts1[j]
    &&& ts2[ti].phys == ts1[ti].phys
    &&& ts2[ti].level@ == ts1[ti].level@
    &&& ts2[ti].entries@ == ts1[ti].entries@.update(k, ts2[ti].entries@[k])
    &&& ts1[ti].entries@[k] == 0
    &&& ts1[ti].level@ < 3
    &&& de_valid(ts2[ti].entries@[k])
    &&& de_table(ts2[ti].entries@[k])
    &&& de_next_table(ts2[ti].entries@[k]) == ts2[ts1.len() as int].phys
    &&& (forall|j: int|
        0 <= j < ts1.len() ==> (#[trigger] ts1[j]).phys != ts2[ts1.len() as int].phys)
    &&& ts2[ts1.len() as int].level@ == ts1[ti].level@ + 1
    &&& table_frame_wf(ts2[ts1.len() as int])
    &&& forall|k2: int| 0 <= k2 < 512 ==> ts2[ts1.len() as int].entries@[k2] == 0
}

/// Tables keep their identity across a descriptor write: every physical
/// address resolves to the same index before and after.
proof fn lemma_resolution_stable(ts1: Seq<TableFrame>, ts2: Seq<TableFrame>)
    requires
        ts1.len() == ts2.len(),
        forall|j: int|
            0 <= j < ts1.len() ==> (#[trigger] ts2[j]).phys == ts1[j].phys && ts2[j].level@
                == ts1[j].level@,
        forall|i: int, j: int|
            0 <= i < j < ts1.len() ==> (#[trigger] ts1[i]).phys != (#[trigger] ts1[j]).phys,
    ensures
        forall|p: u64, l: int| has_table_at(ts2, p, l) == has_table_at(ts1, p, l),
        forall|p: u64|
            has_table_at(ts1, p, 0) || has_table_at(ts1, p, 1) || has_table_at(ts1, p, 2)
                || has_table_at(ts1, p, 3) ==> #[trigger] table_index_of(ts2, p)
                == table_index_of(ts1, p),
{
    assert forall|p: u64, l: int| has_table_at(ts2, p, l) == has_table_at(ts1, p, l) by {
        if has_table_at(ts1, p, l) {
            let j = choose|j: int|
                0 <= j < ts1.len() && (#[trigger] ts1[j]).phys == p && ts1[j].level@ == l;
            assert(ts2[j].phys == p && ts2[j].level@ == l);
        }
        if has_table_at(ts2, p, l) {
            let j = choose|j: int|
                0 <= j < ts2.len() && (#[trigger] ts2[j]).phys == p && ts2[j].level@ == l;
            assert(ts1[j].phys == p && ts1[j].level@ == l);
        }
    }
    assert forall|p: u64|
        has_table_at(ts1, p, 0) || has_table_at(ts1, p, 1) || has_table_at(ts1, p, 2)
            || has_table_at(ts1, p, 3) implies #[trigger] table_index_of(ts2, p)
        == table_index_of(ts1, p) by {
        let c1 = table_index_of(ts1, p);
        let c2 = table_index_of(ts2, p);
        assert(exists|j: int| 0 <= j < ts1.len() && (#[trigger] ts1[j]).phys == p);
        assert(0 <= c1 < ts1.len() && ts1[c1].phys == p);
        assert(exists|j: int| 0 <= j < ts2.len() && (#[trigger] ts2[j]).phys == p) by {
            assert(ts2[c1].phys == p);
        }
        assert(0 <= c2 < ts2.len() && ts2[c2].phys == p);
        assert(ts1[c2].phys == p);
        if c1 != c2 {
            if c1 < c2 {
                assert(ts1[c1].phys != ts1[c2].phys);
            } else {
                assert(ts1[c2].phys != ts1[c1].phys);
            }
        }
    }
}

/// Same as `lemma_resolution_stable`, for appending a fresh table: old
/// addresses resolve as before, and the fresh address resolves to the new
/// slot.
proof fn lemma_resolution_push(ts1: Seq<TableFrame>, ts2: Seq<TableFrame>, ti: int, k: int)
    requires
        tables_wf(ts1),
        link_pushed(ts1, ts2, ti, k),
    ensures
        forall|p: u64, l: int|
            p != ts2[ts1.len() as int].phys ==> #[trigger] has_table_at(ts2, p, l)
                == has_table_at(ts1, p, l),
        forall|p: u64|
            has_table_at(ts1, p, 0) || has_table_at(ts1, p, 1) || has_table_at(ts1, p, 2)
                || has_table_at(ts1, p, 3) ==> #[trigger] table_index_of(ts2, p)
                == table_index_of(ts1, p),
        has_table_at(ts2, ts2[ts1.len() as int].phys, ts1[ti].level@ + 1),
        table_index_of(ts2, ts2[ts1.len() as int].phys) == ts1.len(),
{
    let fp = ts2[ts1.len() as int].phys;
    assert forall|p: u64, l: int|
        p != fp implies #[trigger] has_table_at(ts2, p, l) == has_table_at(ts1, p, l) by {
        if has_table_at(ts1, p, l) {
            let j = choose|j: int|
                0 <= j < ts1.len() && (#[trigger] ts1[j]).phys == p && ts1[j].level@ == l;
            assert(ts2[j].phys == p && ts2[j].level@ == l);
        }
        if has_table_at(ts2, p, l) {
            let j = choose|j: int|
                0 <= j < ts2.len() && (#[trigger] ts2[j]).phys == p && ts2[j].level@ == l;
            assert(j < ts1.len());
            assert(ts1[j].phys == p && ts1[j].level@ == l);
        }
    }
    assert forall|p: u64|
        has_table_at(ts1, p, 0) || has_table_at(ts1, p, 1) || has_table_at(ts1, p, 2)
            || has_table_at(ts1, p, 3) implies #[trigger] table_index_of(ts2, p)
        == table_index_of(ts1, p) by {
        let c1 = table_index_of(ts1, p);
        assert(0 <= c1 < ts1.len() && ts1[c1].phys == p);
        assert(p != fp);
        assert(ts2[c1].phys == p);
        let c2 = table_index_of(ts2, p);
        assert(0 <= c2 < ts2.len() && ts2[c2].phys == p);
        assert(c2 < ts1.len());
        assert(ts1[c2].phys == p);
        if c1 != c2 {
            if c1 < c2 {
                assert(ts1[c1].phys != ts1[c2].phys);
            } else {
                assert(ts1[c2].phys != ts1[c1].phys);
            }
        }
    }
    assert(ts2[ts1.len() as int].phys == fp && ts2[ts1.len() as int].level@ == ts1[ti].level@
        + 1);
    let c = table_index_of(ts2, fp);
    assert(0 <= c < ts2.len() && ts2[c].phys == fp) by {
        assert(ts2[ts1.len() as int].phys == fp);
    }
    if c != ts1.len() {
        assert(ts1[c].phys == fp);
        assert(false);
    }
}

/// The walk only hands back tables serving the level it is at.
proof fn lemma_reached_level(ts: Seq<TableFrame>, va: u64, l: int)
    requires
        tables_wf(ts),
        0 <= l,
        reached(ts, va, l) is Some,
    ensures
        0 <= reached(ts, va, l)->Some_0 < ts.len(),
        ts[reached(ts, va, l)->Some_0].level@ == l,
    decreases l,
{
    lemma_index_bounds(va);
    if l == 0 {
    } else {
        lemma_reached_level(ts, va, l - 1);
        let ti = reached(ts, va, l - 1)->Some_0;
        let d = ts[ti].entries@[level_index(va, l - 1) as int];
        assert(has_table_at(ts, de_next_table(d), l));
        let j = choose|j: int|
            0 <= j < ts.len() && (#[trigger] ts[j]).phys == de_next_table(d) && ts[j].level@ == l;
        let c = table_index_of(ts, de_next_table(d));
        assert(0 <= c < ts.len() && ts[c].phys == de_next_table(d)) by {
            assert(ts[j].phys == de_next_table(d));
        }
        if c != j {
            if c < j {
                assert(ts[c].phys != ts[j].phys);
            } else {
                assert(ts[j].phys != ts[c].phys);
            }
        }
        assert(ts[c].level@ == l);
    }
}

/// Two addresses reaching the same table at some level agree on every
/// index on the way there: the tables form a tree.
proof fn lemma_path_unique(ts: Seq<TableFrame>, a: u64, b: u64, l: int)
    requires
        tables_wf(ts),
        0 <= l <= 3,
        reached(ts, a, l) is Some,
        reached(ts, a, l) == reached(ts, b, l),
    ensures
        forall|l2: int| 0 <= l2 < l ==> level_index(a, l2) == level_index(b, l2),
    decreases l,
{
    lemma_index_bounds(a);
    lemma_index_bounds(b);
    if l > 0 {
        let ta = reached(ts, a, l - 1)->Some_0;
        let tb = reached(ts, b, l - 1)->Some_0;
        lemma_reached_level(ts, a, l - 1);
        lemma_reached_level(ts, b, l - 1);
        let da = ts[ta].entries@[level_index(a, l - 1) as int];
        let db = ts[tb].entries@[level_index(b, l - 1) as int];
        let ti = reached(ts, a, l)->Some_0;
        lemma_reached_level(ts, a, l);
        // Both links resolve to the same table, hence to its one address.
        assert(has_table_at(ts, de_next_table(da), l));
        assert(ts[table_index_of(ts, de_next_table(da))].phys == de_next_table(da)) by {
            let j = choose|j: int|
                0 <= j < ts.len() && (#[trigger] ts[j]).phys == de_next_table(da) && ts[j].level@
                    == l;
            assert(ts[j].phys == de_next_table(da));
            let c = table_index_of(ts, de_next_table(da));
            assert(0 <= c < ts.len() && ts[c].phys == de_next_table(da));
        }
        assert(ts[table_index_of(ts, de_next_table(db))].phys == de_next_table(db)) by {
            let j = choose|j: int|
                0 <= j < ts.len() && (#[trigger] ts[j]).phys == de_next_table(db) && ts[j].level@
                    == l;
            assert(ts[j].phys == de_next_table(db));
            let c = table_index_of(ts, de_next_table(db));
            assert(0 <= c < ts.len() && ts[c].phys == de_next_table(db));
        }
        assert(de_next_table(da) == ts[ti].phys);
        assert(de_next_table(db) == ts[ti].phys);
        assert(table_frame_wf(ts[ta]) && table_frame_wf(ts[tb]));
        assert(is_link(ts, ta, level_index(a, l - 1) as int));
        assert(is_link(ts, tb, level_index(b, l - 1) as int));
        assert(ta == tb && level_index(a, l - 1) == level_index(b, l - 1));
        lemma_path_unique(ts, a, b, l - 1);
    }
}

/// The walk reads a given address through the same tables as any address
/// selecting the same indexes.
proof fn lemma_reached_same_indices(ts: Seq<TableFrame>, a: u64, b: u64, l: int)
    requires
        0 <= l <= 3,
        forall|l2: int| 0 <= l2 < l ==> level_index(a, l2) == level_index(b, l2),
    ensures
        reached(ts, a, l) == reached(ts, b, l),
    decreases l,
{
    if l > 0 {
        lemma_reached_same_indices(ts, a, b, l - 1);
    }
}

/// Writing a non-link descriptor (a block, a page, or zero) over a
/// non-link descriptor leaves the link structure, and with it every walk
/// path, unchanged.
proof fn lemma_reached_nonlink_write(
    ts1: Seq<TableFrame>,
    ts2: Seq<TableFrame>,
    ti: int,
    k: int,
    va: u64,
    l: int,
)
    requires
        tables_wf(ts1),
        updated_at(ts1, ts2, ti, k),
        !(de_valid(ts1[ti].entries@[k]) && de_table(ts1[ti].entries@[k]) && ts1[ti].level@ < 3),
        !(de_valid(ts2[ti].entries@[k]) && de_table(ts2[ti].entries@[k]) && ts1[ti].level@ < 3),
        0 <= l <= 3,
    ensures
        reached(ts2, va, l) == reached(ts1, va, l),
    decreases l,
{
    lemma_index_bounds(va);
    lemma_resolution_stable(ts1, ts2);
    if l > 0 {
        lemma_reached_nonlink_write(ts1, ts2, ti, k, va, l - 1);
        match reached(ts1, va, l - 1) {
            None => {},
            Some(tj) => {
                lemma_reached_level(ts1, va, l - 1);
                let idx = level_index(va, l - 1) as int;
                let d1 = ts1[tj].entries@[idx];
                let d2 = ts2[tj].entries@[idx];
                assert(table_frame_wf(ts1[tj]));
                if tj == ti && idx == k {
                    // Neither the old nor the new descriptor links onward.
                    assert(reached(ts1, va, l) is None);
                    assert(reached(ts2, va, l) is None);
                } else {
                    assert(d2 == d1);
                    if ts1[tj].level@ == l - 1 && de_valid(d1) && de_table(d1) && has_table_at(
                        ts1,
                        de_next_table(d1),
                        l,
                    ) {
                        assert(spec_entry_wf(ts1, ts1[tj].level@, d1));
                        assert(has_table_at(ts2, de_next_table(d1), l));
                    }
                }
            },
        }
    }
}

/// Turning an empty slot into a link to a fresh, zeroed table: walks up to
/// the slot's level are untouched; the one path through the slot now
/// reaches the fresh table and stops there; every other path is untouched.
proof fn lemma_reached_link_push(
    ts1: Seq<TableFrame>,
    ts2: Seq<TableFrame>,
    ti: int,
    k: int,
    va: u64,
    l: int,
)
    requires
        tables_wf(ts1),
        link_pushed(ts1, ts2, ti, k),
        0 <= l <= 3,
    ensures
        l <= ts1[ti].level@ ==> reached(ts2, va, l) == reached(ts1, va, l),
        l > ts1[ti].level@ && !(reached(ts1, va, ts1[ti].level@) == Some(ti) && level_index(
            va,
            ts1[ti].level@,
        ) == k) ==> reached(ts2, va, l) == reached(ts1, va, l),
        l == ts1[ti].level@ + 1 && reached(ts1, va, ts1[ti].level@) == Some(ti) && level_index(
            va,
            ts1[ti].level@,
        ) == k ==> reached(ts2, va, l) == Some(ts1.len() as int) && reached(ts1, va, l) is None,
        l > ts1[ti].level@ + 1 && reached(ts1, va, ts1[ti].level@) == Some(ti) && level_index(
            va,
            ts1[ti].level@,
        ) == k ==> reached(ts2, va, l) is None && reached(ts1, va, l) is None,
    decreases l,
{
    lemma_index_bounds(va);
    lemma_resolution_push(ts1, ts2, ti, k);
    crate::descriptor::lemma_zero_descriptor();
    assert(table_frame_wf(ts1[ti]));
    let tl = ts1[ti].level@;
    let fi = ts1.len() as int;
    let fp = ts2[fi].phys;
    if l > 0 {
        lemma_reached_link_push(ts1, ts2, ti, k, va, l - 1);
        if l - 1 == tl && reached(ts1, va, tl) == Some(ti) && level_index(va, tl) == k {
            // The path goes through the freshly linked slot.
            assert(reached(ts2, va, l - 1) == Some(ti));
            let d2 = ts2[ti].entries@[k];
            assert(de_valid(d2) && de_table(d2) && de_next_table(d2) == fp);
            assert(has_table_at(ts2, fp, tl + 1));
            assert(table_index_of(ts2, fp) == fi);
            assert(reached(ts2, va, l) == Some(fi));
            assert(reached(ts1, va, l) is None);
        } else if l - 1 > tl && reached(ts1, va, tl) == Some(ti) && level_index(va, tl) == k {
            // Below the fresh table everything is empty.
            assert(reached(ts1, va, l - 1) is None);
            assert(reached(ts1, va, l) is None);
            if l - 1 == tl + 1 {
                assert(reached(ts2, va, l - 1) == Some(fi));
                assert(ts2[fi].entries@[level_index(va, l - 1) as int] == 0);
                assert(reached(ts2, va, l) is None);
            } else {
                assert(reached(ts2, va, l - 1) is None);
                assert(reached(ts2, va, l) is None);
            }
        } else {
            // The path misses the slot entirely.
            match reached(ts1, va, l - 1) {
                None => {
                    assert(reached(ts2, va, l - 1) is None);
                },
                Some(tj) => {
                    assert(reached(ts2, va, l - 1) == Some(tj));
                    lemma_reached_level(ts1, va, l - 1);
                    let idx = level_index(va, l - 1) as int;
                    assert(table_frame_wf(ts1[tj]));
                    let d1 = ts1[tj].entries@[idx];
                    if tj == ti && idx == k {
                        // Only possible at the slot's own level, which the
                        // outer case split already handled.
                        assert(l - 1 == tl);
                        assert(reached(ts1, va, tl) == Some(ti) && level_index(va, tl) == k);
                    } else {
                        assert(ts2[tj].entries@[idx] == d1);
                        if ts1[tj].level@ == l - 1 && de_valid(d1) && de_table(d1)
                            && has_table_at(ts1, de_next_table(d1), l) {
                            assert(spec_entry_wf(ts1, ts1[tj].level@, d1));
                            let p = de_next_table(d1);
                            assert(p != fp) by {
                                let j = choose|j: int|
                                    0 <= j < ts1.len() && (#[trigger] ts1[j]).phys == p
                                        && ts1[j].level@ == l;
                                assert(ts1[j].phys == p);
                            }
                            assert(has_table_at(ts2, p, l));
                        } else {
                            assert(reached(ts1, va, l) is None);
                            if de_valid(d1) && de_table(d1) && ts1[tj].level@ == l - 1
                                && has_table_at(ts2, de_next_table(d1), l) {
                                let p = de_next_table(d1);
                                if p == fp {
                                    // A live link cannot target the fresh
                                    // frame: links resolve in the old set.
                                    assert(spec_entry_wf(ts1, ts1[tj].level@, d1));
                                    assert(has_table_at(ts1, p, ts1[tj].level@ + 1));
                                    let j = choose|j: int|
                                        0 <= j < ts1.len() && (#[trigger] ts1[j]).phys == p
                                            && ts1[j].level@ == ts1[tj].level@ + 1;
                                    assert(ts1[j].phys == fp);
                                    assert(false);
                                } else {
                                    assert(has_table_at(ts1, p, l));
                                    assert(false);
                                }
                            }
                            assert(reached(ts2, va, l) is None);
                        }
                    }
                },
            }
        }
    }
}

/// A write of a non-link descriptor into a well-formed slot keeps the
/// table set well-formed.
proof fn lemma_wf_after_nonlink_write(ts1: Seq<TableFrame>, ts2: Seq<TableFrame>, ti: int, k: int)
    requires
        tables_wf(ts1),
        updated_at(ts1, ts2, ti, k),
        spec_entry_wf(ts2, ts1[ti].level@, ts2[ti].entries@[k]),
        !(de_valid(ts2[ti].entries@[k]) && de_table(ts2[ti].entries@[k]) && ts1[ti].level@ < 3),
    ensures
        tables_wf(ts2),
{
    lemma_resolution_stable(ts1, ts2);
    assert(table_frame_wf(ts1[ti]));
    assert forall|i: int| 0 <= i < ts2.len() implies table_frame_wf(#[trigger] ts2[i]) by {
        assert(table_frame_wf(ts1[i]));
        assert(ts2[i].entries@.len() == ts1[i].entries@.len());
    }
    assert forall|i: int, kk: int|
        0 <= i < ts2.len() && 0 <= kk < 512 implies spec_entry_wf(
        ts2,
        ts2[i].level@,
        (#[trigger] ts2[i].entries@[kk]),
    ) by {
        if i == ti && kk == k {
        } else {
            assert(ts2[i].entries@[kk] == ts1[i].entries@[kk]);
            assert(spec_entry_wf(ts1, ts1[i].level@, ts1[i].entries@[kk]));
        }
    }
    assert forall|i: int, kk: int, i2: int, k2: int|
        is_link(ts2, i, kk) && is_link(ts2, i2, k2) && de_next_table(
            #[trigger] ts2[i].entries@[kk],
        ) == de_next_table(#[trigger] ts2[i2].entries@[k2]) implies i == i2 && kk == k2 by {
        if is_link(ts2, i, kk) && is_link(ts2, i2, k2) {
            assert(!(i == ti && kk == k));
            assert(!(i2 == ti && k2 == k));
            assert(is_link(ts1, i, kk));
            assert(is_link(ts1, i2, k2));
        }
    }
}

/// Linking a fresh, zeroed table into an empty slot keeps the table set
/// well-formed.
proof fn lemma_wf_after_link_push(ts1: Seq<TableFrame>, ts2: Seq<TableFrame>, ti: int, k: int)
    requires
        tables_wf(ts1),
        link_pushed(ts1, ts2, ti, k),
    ensures
        tables_wf(ts2),
{
    lemma_resolution_push(ts1, ts2, ti, k);
    crate::descriptor::lemma_zero_descriptor();
    let fi = ts1.len() as int;
    let fp = ts2[fi].phys;
    assert(table_frame_wf(ts1[ti]));
    assert forall|i: int| 0 <= i < ts2.len() implies table_frame_wf(#[trigger] ts2[i]) by {
        if i < fi {
            assert(table_frame_wf(ts1[i]));
            assert(ts2[i].entries@.len() == ts1[i].entries@.len());
        }
    }
    assert forall|i: int, j: int|
        0 <= i < j < ts2.len() implies (#[trigger] ts2[i]).phys != (#[trigger] ts2[j]).phys by {
        if j < fi {
            assert(ts1[i].phys != ts1[j].phys);
        } else {
            assert(ts1[i].phys != fp);
        }
    }
    assert forall|i: int, kk: int|
        0 <= i < ts2.len() && 0 <= kk < 512 implies spec_entry_wf(
        ts2,
        ts2[i].level@,
        (#[trigger] ts2[i].entries@[kk]),
    ) by {
        if i == fi {
            assert(ts2[i].entries@[kk] == 0);
        } else if i == ti && kk == k {
            assert(has_table_at(ts2, fp, ts1[ti].level@ + 1));
        } else {
            assert(ts2[i].entries@[kk] == ts1[i].entries@[kk]);
            assert(spec_entry_wf(ts1, ts1[i].level@, ts1[i].entries@[kk]));
            let d = ts1[i].entries@[kk];
            if de_valid(d) && de_table(d) && ts1[i].level@ < 3 && has_table_at(
                ts1,
                de_next_table(d),
                ts1[i].level@ + 1,
            ) {
                assert(de_next_table(d) != fp) by {
                    let j = choose|j: int|
                        0 <= j < ts1.len() && (#[trigger] ts1[j]).phys == de_next_table(d)
                            && ts1[j].level@ == ts1[i].level@ + 1;
                    assert(ts1[j].phys == de_next_table(d));
                }
                assert(has_table_at(ts2, de_next_table(d), ts1[i].level@ + 1));
            }
        }
    }
    assert forall|i: int, kk: int, i2: int, k2: int|
        is_link(ts2, i, kk) && is_link(ts2, i2, k2) && de_next_table(
            #[trigger] ts2[i].entries@[kk],
        ) == de_next_table(#[trigger] ts2[i2].entries@[k2]) implies i == i2 && kk == k2 by {
        if is_link(ts2, i, kk) && is_link(ts2, i2, k2) && de_next_table(ts2[i].entries@[kk])
            == de_next_table(ts2[i2].entries@[k2]) {
            assert(i != fi && i2 != fi) by {
                assert(forall|k3: int| 0 <= k3 < 512 ==> ts2[fi].entries@[k3] == 0);
            }
            // An old link never targets the fresh frame, so either both
            // slots are old links or both are the new one.
            if (i == ti && kk == k) && (i2 == ti && k2 == k) {
            } else if (i == ti && kk == k) || (i2 == ti && k2 == k) {
                let (oi, ok): (int, int) = if i == ti && kk == k {
                    (i2, k2)
                } else {
                    (i, kk)
                };
                let d = ts1[oi].entries@[ok];
                assert(ts2[oi].entries@[ok] == d);
                assert(spec_entry_wf(ts1, ts1[oi].level@, d));
                assert(has_table_at(ts1, de_next_table(d), ts1[oi].level@ + 1));
                let j = choose|j: int|
                    0 <= j < ts1.len() && (#[trigger] ts1[j]).phys == de_next_table(d)
                        && ts1[j].level@ == ts1[oi].level@ + 1;
                assert(ts1[j].phys == de_next_table(d));
                assert(de_next_table(d) != fp);
                assert(false);
            } else {
                assert(is_link(ts1, i, kk));
                assert(is_link(ts1, i2, k2));
            }
        }
    }
}

/// A walk is blind to a write that the path to its result never reads.
proof fn lemma_lookup_nonlink_write(
    ts1: Seq<TableFrame>,
    ts2: Seq<TableFrame>,
    ti: int,
    k: int,
    va: u64,
)
    requires
        tables_wf(ts1),
        updated_at(ts1, ts2, ti, k),
        !(de_valid(ts1[ti].entries@[k]) && de_table(ts1[ti].entries@[k]) && ts1[ti].level@ < 3),
        !(de_valid(ts2[ti].entries@[k]) && de_table(ts2[ti].entries@[k]) && ts1[ti].level@ < 3),
        !(reached(ts1, va, ts1[ti].level@) == Some(ti) && level_index(va, ts1[ti].level@) == k
            as u64),
    ensures
        lookup(ts2, va) == lookup(ts1, va),
{
    lemma_index_bounds(va);
    lemma_reached_nonlink_write(ts1, ts2, ti, k, va, 1);
    lemma_reached_nonlink_write(ts1, ts2, ti, k, va, 2);
    lemma_reached_nonlink_write(ts1, ts2, ti, k, va, 3);
    assert forall|l: int| 1 <= l <= 3 implies path_entry(ts2, va, l) == path_entry(ts1, va, l) by {
        if reached(ts1, va, l) is Some {
            let tj = reached(ts1, va, l)->Some_0;
            lemma_reached_level(ts1, va, l);
            assert(table_frame_wf(ts1[tj]));
            if tj == ti && level_index(va, l) == k as u64 {
                assert(ts1[ti].level@ == l);
                assert(false);
            }
            assert(ts2[tj].entries@[level_index(va, l) as int] == ts1[tj].entries@[level_index(
                va,
                l,
            ) as int]);
        }
    }
}

/// A walk resolves identically before and after a fresh table is linked
/// in: the new table holds nothing yet.
proof fn lemma_lookup_link_push(
    ts1: Seq<TableFrame>,
    ts2: Seq<TableFrame>,
    ti: int,
    k: int,
    va: u64,
)
    requires
        tables_wf(ts1),
        link_pushed(ts1, ts2, ti, k),
    ensures
        lookup(ts2, va) == lookup(ts1, va),
{
    lemma_index_bounds(va);
    crate::descriptor::lemma_zero_descriptor();
    lemma_reached_link_push(ts1, ts2, ti, k, va, 1);
    lemma_reached_link_push(ts1, ts2, ti, k, va, 2);
    lemma_reached_link_push(ts1, ts2, ti, k, va, 3);
    let tl = ts1[ti].level@;
    let fi = ts1.len() as int;
    if reached(ts1, va, tl) == Some(ti) && level_index(va, tl) == k as u64 {
        // The path runs through the freshly linked slot: it found nothing
        // before and finds the empty fresh table now.
        if tl == 0 {
            assert(reached(ts1, va, 1) is None);
            assert(reached(ts2, va, 1) == Some(fi));
            assert(path_entry(ts2, va, 1) == 0);
        } else if tl == 1 {
            assert(reached(ts2, va, 1) == reached(ts1, va, 1));
            assert(path_entry(ts1, va, 1) == 0);
            assert(path_entry(ts2, va, 1) == ts2[ti].entries@[k]);
            assert(reached(ts2, va, 2) == Some(fi));
            assert(path_entry(ts2, va, 2) == 0);
        } else {
            assert(tl == 2);
            assert(reached(ts2, va, 1) == reached(ts1, va, 1));
            assert(reached(ts2, va, 2) == reached(ts1, va, 2));
            assert forall|l: int| 1 <= l < 2 implies path_entry(ts2, va, l) == path_entry(
                ts1,
                va,
                l,
            ) by {
                let tj = reached(ts1, va, l)->Some_0;
                if reached(ts1, va, l) is Some {
                    lemma_reached_level(ts1, va, l);
                    assert(table_frame_wf(ts1[tj]));
                    assert(tj != ti && tj != fi);
                    assert(ts2[tj].entries@[level_index(va, l) as int]
                        == ts1[tj].entries@[level_index(va, l) as int]);
                }
            }
            assert(path_entry(ts1, va, 2) == 0);
            assert(path_entry(ts2, va, 2) == ts2[ti].entries@[k]);
            assert(reached(ts2, va, 3) == Some(fi));
            assert(path_entry(ts2, va, 3) == 0);
        }
    } else {
        assert forall|l: int| 1 <= l <= 3 implies reached(ts2, va, l) == reached(ts1, va, l)
            && path_entry(ts2, va, l) == path_entry(ts1, va, l) by {
            if reached(ts1, va, l) is Some {
                let tj = reached(ts1, va, l)->Some_0;
                lemma_reached_level(ts1, va, l);
                assert(table_frame_wf(ts1[tj]));
                if tj == ti && level_index(va, l) == k as u64 {
                    assert(ts1[ti].level@ == l);
                    assert(false);
                }
                assert(ts2[tj].entries@[level_index(va, l) as int] == ts1[tj].entries@[level_index(
                    va,
                    l,
                ) as int]);
            }
        }
    }
}

/// Architecture-specific multi-level translation-table builder. It owns
/// the frame allocator backing its tables and the physical-to-accessible
/// address translation in force while it is built.
pub struct PageTable {
    pub tables: Vec<TableFrame>,
    pub allocator: BumpPFA,
    pub translation: AddressTranslation,
}

impl PageTable {
    /// The tables owned so far; index 0 is the level-0 root.
    pub open spec fn ts(self) -> Seq<TableFrame> {
        self.tables@
    }

    /// Every table is well-formed, tables sit at distinct frame addresses
    /// handed out by the owned allocator, every descriptor fits its level,
    /// and no two live links share a target: the tables form a tree.
    pub open spec fn wf(self) -> bool {
        &&& self.ts().len() >= 1
        &&& self.ts()[0].level@ == 0
        &&& forall|i: int| 0 <= i < self.ts().len() ==> table_frame_wf(#[trigger] self.ts()[i])
        &&& forall|i: int, j: int|
            0 <= i < j < self.ts().len() ==> (#[trigger] self.ts()[i]).phys != (
            #[trigger] self.ts()[j]).phys
        &&& forall|i: int, k: int|
            0 <= i < self.ts().len() && 0 <= k < 512 ==> spec_entry_wf(
                self.ts(),
                self.ts()[i].level@,
                (#[trigger] self.ts()[i].entries@[k]),
            )
        &&& forall|i: int, k: int, i2: int, k2: int|
            is_link(self.ts(), i, k) && is_link(self.ts(), i2, k2) && de_next_table(
                #[trigger] self.ts()[i].entries@[k],
            ) == de_next_table(#[trigger] self.ts()[i2].entries@[k2]) ==> i == i2 && k == k2
        &&& self.allocator.wf()
        &&& self.allocator.spec_page_size() == 4096
        &&& self.allocator.spec_end() <= PHYS_LIMIT
        &&& forall|i: int|
            0 <= i < self.ts().len() ==> (self.allocator.spec_start() as int) <= ((
            #[trigger] self.ts()[i]).phys as int) && ((self.ts()[i]).phys as int) < (
            self.allocator.spec_next() as int)
    }

    /// The walk slot at level 1 covering `virt` holds nothing yet.
    pub open spec fn l1_slot_free(self, virt: u64) -> bool {
        match reached(self.ts(), virt, 1) {
            Some(_) => path_entry(self.ts(), virt, 1) == 0,
            None => true,
        }
    }

    /// Something already terminal stands on the walk to `virt`'s level-2
    /// slot: a 1GiB block above it, or a live descriptor in the slot.
    pub open spec fn path_blocked_2m(self, virt: u64) -> bool {
        ||| (reached(self.ts(), virt, 1) is Some && de_valid(path_entry(self.ts(), virt, 1))
            && !de_table(path_entry(self.ts(), virt, 1)))
        ||| (reached(self.ts(), virt, 2) is Some && de_valid(path_entry(self.ts(), virt, 2)))
    }

    /// Something already terminal stands on the walk to `virt`'s level-3
    /// slot: a block at level 1 or 2, or a live page descriptor in the
    /// slot.
    pub open spec fn path_blocked_4k(self, virt: u64) -> bool {
        ||| (reached(self.ts(), virt, 1) is Some && de_valid(path_entry(self.ts(), virt, 1))
            && !de_table(path_entry(self.ts(), virt, 1)))
        ||| (reached(self.ts(), virt, 2) is Some && de_valid(path_entry(self.ts(), virt, 2))
            && !de_table(path_entry(self.ts(), virt, 2)))
        ||| (reached(self.ts(), virt, 3) is Some && de_valid(path_entry(self.ts(), virt, 3)))
    }

    /// The walk to `virt`'s level-2 slot meets the wrong shape for a
    /// 2MiB block: a coarser 1GiB block above it, or a finer-grained
    /// table in the slot itself.
    pub open spec fn region_granule_mismatch_2m(self, virt: u64) -> bool {
        ||| (reached(self.ts(), virt, 1) is Some && de_valid(path_entry(self.ts(), virt, 1))
            && !de_table(path_entry(self.ts(), virt, 1)))
        ||| (reached(self.ts(), virt, 2) is Some && de_valid(path_entry(self.ts(), virt, 2))
            && de_table(path_entry(self.ts(), virt, 2)))
    }

    /// The walk to `virt`'s level-3 slot meets a coarser block at level 1
    /// or 2: the page is covered by a granule a 4KiB unmap cannot take
    /// apart.
    pub open spec fn region_granule_mismatch_4k(self, virt: u64) -> bool {
        ||| (reached(self.ts(), virt, 1) is Some && de_valid(path_entry(self.ts(), virt, 1))
            && !de_table(path_entry(self.ts(), virt, 1)))
        ||| (reached(self.ts(), virt, 2) is Some && de_valid(path_entry(self.ts(), virt, 2))
            && !de_table(path_entry(self.ts(), virt, 2)))
    }

    /// How many intermediate tables a 4KiB mapping of `virt` still has to
    /// allocate.
    pub open spec fn tables_needed_4k(self, virt: u64) -> int {
        if reached(self.ts(), virt, 3) is Some {
            0
        } else if reached(self.ts(), virt, 2) is Some {
            1
        } else if reached(self.ts(), virt, 1) is Some {
            2
        } else {
            3
        }
    }

    /// Nothing stands in the way of mapping any address of
    /// `[virt_start, virt_start + size)` at any granule, and the backing
    /// allocator has room for the worst-case table demand of the range.
    pub open spec fn range_clear(self, virt_start: u64, size: u64) -> bool {
        &&& forall|w: u64|
            virt_start <= w < virt_start + size ==> (#[trigger] self.l1_slot_free(w))
                && !self.path_blocked_2m(w) && !self.path_blocked_4k(w)
        &&& self.allocator.spec_next() + 3 * size <= self.allocator.spec_end()
    }

    /// How many intermediate tables a 2MiB mapping of `virt` still has to
    /// allocate.
    pub open spec fn tables_needed_2m(self, virt: u64) -> int {
        if reached(self.ts(), virt, 2) is Some {
            0
        } else if reached(self.ts(), virt, 1) is Some {
            1
        } else {
            2
        }
    }

    /// Validates the platform page size, allocates and zeroes the root
    /// table and takes ownership of the allocator and the translation.
    pub fn new(translation: AddressTranslation, frame_allocator: BumpPFA) -> (r: Result<
        PageTable,
        AddressSpaceError,
    >)
        requires
            frame_allocator.wf(),
            frame_allocator.spec_end() <= PHYS_LIMIT,
        ensures
            match r {
                Ok(pt) => {
                    &&& frame_allocator.spec_page_size() == 4096
                    &&& pt.wf()
                    &&& pt.translation == translation
                    &&& pt.allocator.spec_start() == frame_allocator.spec_start()
                    &&& pt.allocator.spec_end() == frame_allocator.spec_end()
                    &&& pt.allocator.spec_page_size() == 4096
                    &&& pt.allocator.spec_next() == frame_allocator.spec_next() + 4096
                    &&& pt.ts()[0].phys == frame_allocator.spec_next()
                    &&& forall|va: u64| lookup(pt.ts(), va) is None
                },
                Err(AddressSpaceError::PageSizeMismatch) => frame_allocator.spec_page_size()
                    != 4096,
                Err(AddressSpaceError::AllocationExhausted) => {
                    &&& frame_allocator.spec_page_size() == 4096
                    &&& frame_allocator.spec_next() == frame_allocator.spec_end()
                },
                _ => false,
            },
    {
        let mut allocator = frame_allocator;
        if allocator.page_size != 4096 {
            return Err(AddressSpaceError::PageSizeMismatch);
        }
        let frame = match allocator.allocate_contiguous_pages(1) {
            Ok(f) => f,
            Err(_) => {
                return Err(AddressSpaceError::AllocationExhausted);
            },
        };
        let root = TableFrame { phys: frame as u64, level: Ghost(0), entries: new_table_entries() };
        let tables: Vec<TableFrame> = vec![root];
        let pt = PageTable { tables, allocator, translation };
        proof {
            crate::descriptor::lemma_zero_descriptor();
            let ts = pt.ts();
            assert(ts.len() == 1);
            assert(table_frame_wf(ts[0]));
            assert forall|i: int, k: int|
                0 <= i < ts.len() && 0 <= k < 512 implies spec_entry_wf(
                ts,
                ts[i].level@,
                (#[trigger] ts[i].entries@[k]),
            ) by {
                assert(ts[i].entries@[k] == 0);
            }
            assert forall|i: int, k: int| !is_link(ts, i, k) by {
                if 0 <= i < ts.len() && 0 <= k < 512 {
                    assert(ts[i].entries@[k] == 0);
                }
            }
            assert(pt.wf());
            assert forall|va: u64| lookup(pt.ts(), va) is None by {
                lemma_index_bounds(va);
                assert(reached(ts, va, 0) == Some(0int));
                assert(ts[0].entries@[level_index(va, 0) as int] == 0);
                assert(reached(ts, va, 1) is None);
            }
        }
        Ok(pt)
    }

    /// The physical address of the root table, as the hardware base
    /// register takes it.
    pub fn as_raw(&self) -> (r: u64)
        requires
            self.wf(),
        ensures
            r == self.ts()[0].phys,
    {
        self.tables[0].phys
    }

    /// Replaces the physical-to-accessible translation, for the moment the
    /// linear map becomes live.
    pub fn set_translator(&mut self, translation: AddressTranslation)
        ensures
            *final(self) == (PageTable { translation, ..*old(self) }),
    {
        self.translation = translation;
    }

    /// The index of the owned table at physical address `phys`.
    fn find_table(&self, phys: u64) -> (r: Option<usize>)
        requires
            self.wf(),
        ensures
            match r {
                Some(j) => j < self.ts().len() && self.ts()[j as int].phys == phys
                    && table_index_of(self.ts(), phys) == j as int,
                None => forall|j: int| 0 <= j < self.ts().len() ==> (#[trigger] self.ts()[j]).phys != phys,
            },
    {
        let n = self.tables.len();
        let mut i: usize = 0;
        while i < n
            invariant
                self.wf(),
                n == self.ts().len(),
                i <= n,
                forall|j: int| 0 <= j < i ==> (#[trigger] self.ts()[j]).phys != phys,
            decreases n - i,
        {
            if self.tables[i].phys == phys {
                proof {
                    let c = table_index_of(self.ts(), phys);
                    assert(0 <= c < self.ts().len() && self.ts()[c].phys == phys);
                }
                return Some(i);
            }
            i = i + 1;
        }
        None
    }

    /// One step of the lazy walk: hands back the table the slot
    /// `(ti, idx)` links to, allocating and zeroing it first if the slot
    /// is still empty. Fails with `AlreadyMapped` if the slot holds a
    /// terminal descriptor instead, and with `AllocationExhausted` if a
    /// needed table cannot be allocated; neither failure changes anything.
    #[verifier::rlimit(100)]
    #[verifier::spinoff_prover]
    fn descend(&mut self, ti: usize, idx: u64, Ghost(virt): Ghost<u64>, Ghost(lvl): Ghost<int>)
        -> (r: Result<usize, AddressSpaceError>)
        requires
            old(self).wf(),
            0 <= lvl < 3,
            (ti as int) < old(self).ts().len(),
            reached(old(self).ts(), virt, lvl) == Some(ti as int),
            idx == level_index(virt, lvl),
        ensures
            final(self).wf(),
            final(self).translation == old(self).translation,
            final(self).allocator.spec_start() == old(self).allocator.spec_start(),
            final(self).allocator.spec_end() == old(self).allocator.spec_end(),
            final(self).allocator.spec_page_size() == 4096,
            match r {
                Ok(j) => {
                    &&& (j as int) < final(self).ts().len()
                    &&& reached(final(self).ts(), virt, lvl + 1) == Some(j as int)
                    &&& forall|va: u64|
                        lookup(final(self).ts(), va) == lookup(old(self).ts(), va)
                    &&& forall|w: u64|
                        !same_1gib_region(w, virt) ==> final(self).l1_slot_free(w) == old(
                            self,
                        ).l1_slot_free(w)
                    &&& forall|w: u64|
                        !same_2mib_region(w, virt) ==> final(self).path_blocked_2m(w) == old(
                            self,
                        ).path_blocked_2m(w)
                    &&& forall|w: u64|
                        final(self).path_blocked_4k(w) == old(self).path_blocked_4k(w)
                    &&& if reached(old(self).ts(), virt, lvl + 1) is Some {
                        *final(self) == *old(self) && reached(old(self).ts(), virt, lvl + 1)
                            == Some(j as int)
                    } else {
                        &&& path_entry(old(self).ts(), virt, lvl) == 0
                        &&& final(self).allocator.spec_next() == old(self).allocator.spec_next()
                            + 4096
                        &&& path_entry(final(self).ts(), virt, lvl + 1) == 0
                        &&& forall|l: int|
                            lvl + 1 < l <= 3 ==> reached(final(self).ts(), virt, l) is None
                    }
                },
                Err(AddressSpaceError::AlreadyMapped) => {
                    &&& *final(self) == *old(self)
                    &&& de_valid(path_entry(old(self).ts(), virt, lvl))
                    &&& !de_table(path_entry(old(self).ts(), virt, lvl))
                },
                Err(AddressSpaceError::AllocationExhausted) => {
                    &&& *final(self) == *old(self)
                    &&& path_entry(old(self).ts(), virt, lvl) == 0
                    &&& reached(old(self).ts(), virt, lvl + 1) is None
                    &&& old(self).allocator.spec_next() == old(self).allocator.spec_end()
                },
                _ => false,
            },
    {
        proof {
            lemma_index_bounds(virt);
            lemma_reached_level(old(self).ts(), virt, lvl);
            assert(table_frame_wf(self.ts()[ti as int]));
        }
        let d = self.tables[ti].entries[idx as usize];
        proof {
            assert(d == path_entry(old(self).ts(), virt, lvl));
            assert(spec_entry_wf(old(self).ts(), lvl, d));
        }
        if !descriptor_is_valid(d) {
            proof {
                assert(d == 0);
                assert(reached(old(self).ts(), virt, lvl + 1) is None);
            }
            let frame = match self.allocator.allocate_contiguous_pages(1) {
                Ok(f) => f,
                Err(_) => {
                    proof {
                        let a = old(self).allocator;
                        assert(a.spec_next() + 4096 > a.spec_end());
                        assert(a.spec_next() % 4096 == 0 && a.spec_end() % 4096 == 0);
                        assert(a.spec_next() == a.spec_end()) by {
                            let n = a.spec_next() as int;
                            let e = a.spec_end() as int;
                            assert(n <= e < n + 4096);
                            assert(n % 4096 == 0 && e % 4096 == 0);
                            vstd::arithmetic::div_mod::lemma_fundamental_div_mod(n, 4096);
                            vstd::arithmetic::div_mod::lemma_fundamental_div_mod(e, 4096);
                            assert(n == e) by (nonlinear_arith)
                                requires
                                    n == 4096 * (n / 4096) + n % 4096,
                                    e == 4096 * (e / 4096) + e % 4096,
                                    n % 4096 == 0,
                                    e % 4096 == 0,
                                    n <= e < n + 4096,
                            ;
                        }
                    }
                    return Err(AddressSpaceError::AllocationExhausted);
                },
            };
            let child_phys = frame as u64;
            let nd = make_table_descriptor(child_phys);
            let ghost ts0 = old(self).ts();
            self.tables[ti].entries[idx as usize] = nd;
            let fresh = TableFrame {
                phys: child_phys,
                level: Ghost(lvl + 1),
                entries: new_table_entries(),
            };
            self.tables.push(fresh);
            let j = self.tables.len() - 1;
            proof {
                let ts2 = self.ts();
                assert(link_pushed(ts0, ts2, ti as int, idx as int)) by {
                    assert(forall|j2: int|
                        0 <= j2 < ts0.len() ==> ((#[trigger] ts0[j2]).phys as int)
                            < (old(self).allocator.spec_next() as int));
                    assert(child_phys as int == old(self).allocator.spec_next() as int);
                }
                lemma_wf_after_link_push(ts0, ts2, ti as int, idx as int);
                lemma_resolution_push(ts0, ts2, ti as int, idx as int);
                assert forall|va: u64| lookup(ts2, va) == lookup(ts0, va) by {
                    lemma_lookup_link_push(ts0, ts2, ti as int, idx as int, va);
                }
                lemma_reached_link_push(ts0, ts2, ti as int, idx as int, virt, lvl + 1);
                assert(reached(ts2, virt, lvl + 1) == Some(j as int));
                assert(path_entry(ts2, virt, lvl + 1) == 0);
                assert forall|l: int| lvl + 1 < l <= 3 implies reached(ts2, virt, l) is None by {
                    lemma_reached_link_push(ts0, ts2, ti as int, idx as int, virt, l);
                }
                crate::descriptor::lemma_zero_descriptor();
                let fi = ts0.len() as int;
                assert forall|w: u64| !same_1gib_region(w, virt) implies self.l1_slot_free(w)
                    == old(self).l1_slot_free(w) by {
                    lemma_index_bounds(w);
                    lemma_index_bounds(virt);
                    lemma_reached_link_push(ts0, ts2, ti as int, idx as int, w, 1);
                    if reached(ts0, w, lvl) == Some(ti as int) && level_index(w, lvl) == idx {
                        if lvl == 0 {
                            assert(reached(ts2, w, 1) == Some(fi));
                            assert(ts2[fi].entries@[level_index(w, 1) as int] == 0);
                        } else if lvl == 1 {
                            lemma_path_unique(ts0, w, virt, 1);
                            assert(level_index(w, 0) == level_index(virt, 0));
                            assert(same_1gib_region(w, virt));
                            assert(false);
                        } else {
                            assert(reached(ts2, w, 1) == reached(ts0, w, 1));
                            if reached(ts0, w, 1) is Some {
                                let t1 = reached(ts0, w, 1)->Some_0;
                                lemma_reached_level(ts0, w, 1);
                                assert(table_frame_wf(ts0[t1]));
                                assert(t1 != ti as int);
                                assert(ts2[t1].entries@[level_index(w, 1) as int]
                                    == ts0[t1].entries@[level_index(w, 1) as int]);
                            }
                        }
                    } else {
                        assert(reached(ts2, w, 1) == reached(ts0, w, 1));
                        if reached(ts0, w, 1) is Some {
                            let t1 = reached(ts0, w, 1)->Some_0;
                            lemma_reached_level(ts0, w, 1);
                            assert(table_frame_wf(ts0[t1]));
                            if t1 == ti as int && level_index(w, 1) == idx {
                                assert(ts0[ti as int].level@ == 1);
                                assert(reached(ts0, w, lvl) == Some(ti as int));
                                assert(false);
                            }
                            assert(ts2[t1].entries@[level_index(w, 1) as int]
                                == ts0[t1].entries@[level_index(w, 1) as int]);
                        }
                    }
                }
                assert forall|w: u64| !same_2mib_region(w, virt) implies self.path_blocked_2m(w)
                    == old(self).path_blocked_2m(w) by {
                    lemma_index_bounds(w);
                    lemma_index_bounds(virt);
                    lemma_reached_link_push(ts0, ts2, ti as int, idx as int, w, 1);
                    lemma_reached_link_push(ts0, ts2, ti as int, idx as int, w, 2);
                    // The level-1 entry w reads is at worst turned from
                    // empty into a link; neither is a block.
                    assert forall|l: int| 1 <= l <= 2 implies (reached(ts0, w, l) is Some ==> ({
                        let tj = reached(ts0, w, l)->Some_0;
                        ts2[tj].entries@[level_index(w, l) as int]
                            == ts0[tj].entries@[level_index(w, l) as int] || (
                        ts0[tj].entries@[level_index(w, l) as int] == 0 && de_valid(
                            ts2[tj].entries@[level_index(w, l) as int],
                        ) && de_table(ts2[tj].entries@[level_index(w, l) as int]))
                    })) by {
                        if reached(ts0, w, l) is Some {
                            let tj = reached(ts0, w, l)->Some_0;
                            lemma_reached_level(ts0, w, l);
                            assert(table_frame_wf(ts0[tj]));
                            if tj == ti as int && level_index(w, l) == idx {
                                assert(ts0[tj].entries@[level_index(w, l) as int] == 0);
                            } else {
                                assert(ts2[tj].entries@[level_index(w, l) as int]
                                    == ts0[tj].entries@[level_index(w, l) as int]);
                            }
                        }
                    }
                    if reached(ts0, w, lvl) == Some(ti as int) && level_index(w, lvl) == idx {
                        if lvl == 2 {
                            lemma_path_unique(ts0, w, virt, 2);
                            assert(level_index(w, 0) == level_index(virt, 0));
                            assert(level_index(w, 1) == level_index(virt, 1));
                            assert(same_2mib_region(w, virt));
                            assert(false);
                        } else if lvl == 1 {
                            assert(reached(ts2, w, 2) == Some(fi));
                            assert(ts2[fi].entries@[level_index(w, 2) as int] == 0);
                            assert(reached(ts0, w, 2) is None);
                        } else {
                            assert(reached(ts2, w, 1) == Some(fi));
                            assert(ts2[fi].entries@[level_index(w, 1) as int] == 0);
                            assert(reached(ts2, w, 2) is None);
                            assert(reached(ts0, w, 1) is None);
                            assert(reached(ts0, w, 2) is None);
                        }
                    } else {
                        assert(reached(ts2, w, 1) == reached(ts0, w, 1));
                        assert(reached(ts2, w, 2) == reached(ts0, w, 2));
                    }
                }
                assert forall|w: u64| self.path_blocked_4k(w) == old(self).path_blocked_4k(w)
                    by {
                    lemma_index_bounds(w);
                    lemma_reached_link_push(ts0, ts2, ti as int, idx as int, w, 1);
                    lemma_reached_link_push(ts0, ts2, ti as int, idx as int, w, 2);
                    lemma_reached_link_push(ts0, ts2, ti as int, idx as int, w, 3);
                    assert forall|l: int| 1 <= l <= 3 implies (reached(ts0, w, l) is Some ==> ({
                        let tj = reached(ts0, w, l)->Some_0;
                        ts2[tj].entries@[level_index(w, l) as int]
                            == ts0[tj].entries@[level_index(w, l) as int] || (
                        ts0[tj].entries@[level_index(w, l) as int] == 0 && de_valid(
                            ts2[tj].entries@[level_index(w, l) as int],
                        ) && de_table(ts2[tj].entries@[level_index(w, l) as int]))
                    })) by {
                        if reached(ts0, w, l) is Some {
                            let tj = reached(ts0, w, l)->Some_0;
                            lemma_reached_level(ts0, w, l);
                            assert(table_frame_wf(ts0[tj]));
                            if tj == ti as int && level_index(w, l) == idx {
                                assert(ts0[tj].entries@[level_index(w, l) as int] == 0);
                            } else {
                                assert(ts2[tj].entries@[level_index(w, l) as int]
                                    == ts0[tj].entries@[level_index(w, l) as int]);
                            }
                        }
                    }
                    if reached(ts0, w, lvl) == Some(ti as int) && level_index(w, lvl) == idx {
                        assert forall|l: int| lvl + 1 <= l <= 3 implies (reached(ts2, w, l)
                            == Some(fi) && ts2[fi].entries@[level_index(w, l) as int] == 0)
                            || reached(ts2, w, l) is None by {
                            lemma_reached_link_push(ts0, ts2, ti as int, idx as int, w, l);
                        }
                        assert forall|l: int| lvl + 1 <= l <= 3 implies reached(ts0, w, l)
                            is None by {
                            lemma_reached_link_push(ts0, ts2, ti as int, idx as int, w, l);
                        }
                    } else {
                        assert(reached(ts2, w, 1) == reached(ts0, w, 1));
                        assert(reached(ts2, w, 2) == reached(ts0, w, 2));
                        assert(reached(ts2, w, 3) == reached(ts0, w, 3));
                    }
                }
            }
            return Ok(j);
        }
        if !descriptor_is_table(d) {
            return Err(AddressSpaceError::AlreadyMapped);
        }
        let next = descriptor_next_table(d);
        proof {
            crate::descriptor::lemma_zero_descriptor();
            assert(has_table_at(self.ts(), next, lvl + 1));
        }
        match self.find_table(next) {
            Some(j) => {
                proof {
                    let ts = self.ts();
                    let c = table_index_of(ts, next);
                    assert(reached(ts, virt, lvl + 1) == Some(c));
                    assert(c == j as int);
                }
                Ok(j)
            },
            None => {
                proof {
                    let j2 = choose|j2: int|
                        0 <= j2 < self.ts().len() && (#[trigger] self.ts()[j2]).phys == next
                            && self.ts()[j2].level@ == lvl + 1;
                    assert(self.ts()[j2].phys == next);
                    assert(false);
                }
                Err(AddressSpaceError::TranslationNotFound)
            },
        }
    }

    /// Writes a terminal descriptor — or zero, to clear — into the
    /// non-link slot the walk selects for `virt` at level `lvl`; only
    /// that slot's translations change.
    fn write_terminal(
        &mut self,
        ti: usize,
        idx: u64,
        nd: u64,
        Ghost(virt): Ghost<u64>,
        Ghost(lvl): Ghost<int>,
    )
        requires
            old(self).wf(),
            1 <= lvl <= 3,
            (ti as int) < old(self).ts().len(),
            reached(old(self).ts(), virt, lvl) == Some(ti as int),
            idx == level_index(virt, lvl),
            !(de_valid(path_entry(old(self).ts(), virt, lvl)) && de_table(
                path_entry(old(self).ts(), virt, lvl),
            ) && lvl < 3),
            nd == 0 || (de_valid(nd) && (if lvl == 3 {
                de_table(nd)
            } else {
                !de_table(nd)
            })),
        ensures
            final(self).wf(),
            final(self).translation == old(self).translation,
            final(self).allocator == old(self).allocator,
            final(self).ts().len() == old(self).ts().len(),
            forall|va: u64, l: int|
                0 <= l <= 3 ==> reached(final(self).ts(), va, l) == reached(old(self).ts(), va, l),
            forall|va: u64|
                same_indices_to(va, virt, lvl) ==> reached(final(self).ts(), va, lvl) == Some(
                    ti as int,
                ) && path_entry(final(self).ts(), va, lvl) == nd,
            forall|va: u64|
                !same_indices_to(va, virt, lvl) ==> lookup(final(self).ts(), va) == lookup(
                    old(self).ts(),
                    va,
                ),
            forall|w: u64|
                !same_indices_to(w, virt, lvl) ==> final(self).l1_slot_free(w) == old(
                    self,
                ).l1_slot_free(w) && final(self).path_blocked_2m(w) == old(self).path_blocked_2m(
                    w,
                ) && final(self).path_blocked_4k(w) == old(self).path_blocked_4k(w),
    {
        proof {
            lemma_index_bounds(virt);
            lemma_reached_level(old(self).ts(), virt, lvl);
            assert(table_frame_wf(self.ts()[ti as int]));
        }
        let ghost ts1 = self.ts();
        self.tables[ti].entries[idx as usize] = nd;
        proof {
            let ts2 = self.ts();
            crate::descriptor::lemma_zero_descriptor();
            assert(!(de_valid(ts1[ti as int].entries@[idx as int]) && de_table(
                ts1[ti as int].entries@[idx as int],
            ) && lvl < 3));
            assert(updated_at(ts1, ts2, ti as int, idx as int));
            assert(ts1[ti as int].level@ == lvl);
            assert(spec_entry_wf(ts2, lvl, nd));
            lemma_wf_after_nonlink_write(ts1, ts2, ti as int, idx as int);
            assert forall|va: u64, l: int| 0 <= l <= 3 implies reached(ts2, va, l) == reached(
                ts1,
                va,
                l,
            ) by {
                lemma_reached_nonlink_write(ts1, ts2, ti as int, idx as int, va, l);
            }
            assert forall|va: u64| same_indices_to(va, virt, lvl) implies reached(ts2, va, lvl)
                == Some(ti as int) && path_entry(ts2, va, lvl) == nd by {
                lemma_index_bounds(va);
                lemma_reached_same_indices(ts1, va, virt, lvl);
                assert(reached(ts1, va, lvl) == Some(ti as int));
                assert(level_index(va, lvl) == idx);
                assert(reached(ts2, va, lvl) == Some(ti as int));
            }
            assert forall|va: u64| !same_indices_to(va, virt, lvl) implies lookup(ts2, va)
                == lookup(ts1, va) by {
                if reached(ts1, va, lvl) == Some(ti as int) && level_index(va, lvl) == idx {
                    lemma_path_unique(ts1, va, virt, lvl);
                    assert forall|l2: int| 0 <= l2 <= lvl implies level_index(va, l2)
                        == level_index(virt, l2) by {}
                    assert(same_indices_to(va, virt, lvl));
                    assert(false);
                }
                lemma_lookup_nonlink_write(ts1, ts2, ti as int, idx as int, va);
            }
            assert forall|w: u64| !same_indices_to(w, virt, lvl) implies self.l1_slot_free(w)
                == old(self).l1_slot_free(w) && self.path_blocked_2m(w) == old(
                self,
            ).path_blocked_2m(w) && self.path_blocked_4k(w) == old(self).path_blocked_4k(w) by {
                lemma_index_bounds(w);
                assert forall|l: int| 1 <= l <= 3 implies reached(ts2, w, l) == reached(
                    ts1,
                    w,
                    l,
                ) && path_entry(ts2, w, l) == path_entry(ts1, w, l) by {
                    if reached(ts1, w, l) is Some {
                        let tj = reached(ts1, w, l)->Some_0;
                        lemma_reached_level(ts1, w, l);
                        assert(table_frame_wf(ts1[tj]));
                        if tj == ti as int && level_index(w, l) == idx {
                            assert(l == lvl);
                            lemma_path_unique(ts1, w, virt, lvl);
                            assert forall|l2: int| 0 <= l2 <= lvl implies level_index(w, l2)
                                == level_index(virt, l2) by {}
                            assert(same_indices_to(w, virt, lvl));
                            assert(false);
                        }
                        assert(ts2[tj].entries@[level_index(w, l) as int]
                            == ts1[tj].entries@[level_index(w, l) as int]);
                    }
                }
            }
        }
    }

    /// Maps the 1GiB-aligned virtual region at `virt_start` to the
    /// physical region at `phys_start` with a level-1 block descriptor,
    /// creating the level-1 table on the way if needed. Addresses within
    /// the region then translate to `phys_start` plus their offset;
    /// nothing else changes. Fails with `AlreadyMapped` if the region's
    /// slot already holds a block or a finer-grained table.
    pub fn map_1gib_page(
        &mut self,
        virt_start: u64,
        phys_start: u64,
        attr: MemoryAttributes,
    ) -> (r: Result<(), AddressSpaceError>)
        requires
            old(self).wf(),
            phys_start < PHYS_LIMIT,
        ensures
            final(self).wf(),
            final(self).translation == old(self).translation,
            final(self).allocator.spec_start() == old(self).allocator.spec_start(),
            final(self).allocator.spec_end() == old(self).allocator.spec_end(),
            final(self).allocator.spec_page_size() == old(self).allocator.spec_page_size(),
            match r {
                Ok(()) => {
                    &&& virt_start % SIZE_1GIB == 0
                    &&& phys_start % SIZE_1GIB == 0
                    &&& old(self).l1_slot_free(virt_start)
                    &&& forall|va: u64|
                        same_1gib_region(va, virt_start) ==> lookup(final(self).ts(), va) == Some(
                            (phys_start + off_1gib(va)) as u64,
                        )
                    &&& forall|va: u64|
                        !same_1gib_region(va, virt_start) ==> lookup(final(self).ts(), va)
                            == lookup(old(self).ts(), va)
                    &&& final(self).allocator.spec_next() == old(self).allocator.spec_next() + (
                    if reached(old(self).ts(), virt_start, 1) is Some {
                        0int
                    } else {
                        4096int
                    })
                    &&& de_attr_idx(path_entry(final(self).ts(), virt_start, 1))
                        == spec_attr_index(attr)
                    &&& de_af(path_entry(final(self).ts(), virt_start, 1))
                    &&& forall|w: u64|
                        !same_1gib_region(w, virt_start) ==> final(self).l1_slot_free(w) == old(
                            self,
                        ).l1_slot_free(w) && final(self).path_blocked_2m(w) == old(
                            self,
                        ).path_blocked_2m(w) && final(self).path_blocked_4k(w) == old(
                            self,
                        ).path_blocked_4k(w)
                },
                Err(AddressSpaceError::Misaligned) => {
                    &&& *final(self) == *old(self)
                    &&& !(virt_start % SIZE_1GIB == 0 && phys_start % SIZE_1GIB == 0)
                },
                Err(AddressSpaceError::AlreadyMapped) => {
                    &&& *final(self) == *old(self)
                    &&& virt_start % SIZE_1GIB == 0 && phys_start % SIZE_1GIB == 0
                    &&& !old(self).l1_slot_free(virt_start)
                },
                Err(AddressSpaceError::AllocationExhausted) => {
                    &&& *final(self) == *old(self)
                    &&& virt_start % SIZE_1GIB == 0 && phys_start % SIZE_1GIB == 0
                    &&& old(self).l1_slot_free(virt_start)
                    &&& reached(old(self).ts(), virt_start, 1) is None
                    &&& old(self).allocator.spec_next() == old(self).allocator.spec_end()
                },
                _ => false,
            },
    {
        if virt_start % SIZE_1GIB != 0 || phys_start % SIZE_1GIB != 0 {
            return Err(AddressSpaceError::Misaligned);
        }
        proof {
            crate::descriptor::lemma_zero_descriptor();
            assert(reached(old(self).ts(), virt_start, 0) == Some(0int));
        }
        let l0i = level0_index(virt_start);
        let child = match self.descend(0, l0i, Ghost(virt_start), Ghost(0)) {
            Ok(j) => j,
            Err(e) => {
                proof {
                    if e == AddressSpaceError::AlreadyMapped {
                        let d0 = path_entry(old(self).ts(), virt_start, 0);
                        assert(spec_entry_wf(old(self).ts(), 0, d0));
                        assert(false);
                    }
                }
                return Err(e);
            },
        };
        let ghost s1 = *self;
        let l1i = level1_index(virt_start);
        proof {
            lemma_reached_level(s1.ts(), virt_start, 1);
            assert(table_frame_wf(s1.ts()[child as int]));
        }
        let d = self.tables[child].entries[l1i as usize];
        proof {
            assert(d == path_entry(s1.ts(), virt_start, 1));
        }
        if descriptor_is_valid(d) || descriptor_is_table(d) {
            proof {
                crate::descriptor::lemma_zero_descriptor();
                assert(d != 0);
                assert(reached(old(self).ts(), virt_start, 1) is Some);
                assert(s1 == *old(self));
            }
            return Err(AddressSpaceError::AlreadyMapped);
        }
        proof {
            crate::descriptor::lemma_zero_descriptor();
            assert(spec_entry_wf(s1.ts(), 1, d));
            assert(d == 0);
        }
        let attr_idx = translate_memory_attrib(attr);
        let nd = make_block_descriptor_l1(phys_start, attr_idx as u64);
        self.write_terminal(child, l1i, nd, Ghost(virt_start), Ghost(1));
        proof {
            let ts2 = self.ts();
            assert(same_indices_to(virt_start, virt_start, 1));
            assert(path_entry(ts2, virt_start, 1) == nd);
            assert forall|va: u64| same_1gib_region(va, virt_start) implies lookup(ts2, va)
                == Some((phys_start + off_1gib(va)) as u64) by {
                lemma_index_bounds(va);
                assert(same_indices_to(va, virt_start, 1)) by {
                    assert forall|l2: int| 0 <= l2 <= 1 implies level_index(va, l2)
                        == level_index(virt_start, l2) by {}
                }
                assert(reached(ts2, va, 1) == Some(child as int) && path_entry(ts2, va, 1)
                    == nd);
            }
            assert forall|va: u64| !same_1gib_region(va, virt_start) implies lookup(ts2, va)
                == lookup(old(self).ts(), va) by {
                assert(!same_indices_to(va, virt_start, 1)) by {
                    if same_indices_to(va, virt_start, 1) {
                        assert(level_index(va, 0) == level_index(virt_start, 0));
                        assert(level_index(va, 1) == level_index(virt_start, 1));
                        assert(same_1gib_region(va, virt_start));
                    }
                }
                assert(lookup(ts2, va) == lookup(s1.ts(), va));
                assert(lookup(s1.ts(), va) == lookup(old(self).ts(), va));
            }
            assert forall|w: u64| !same_1gib_region(w, virt_start) implies self.l1_slot_free(w)
                == old(self).l1_slot_free(w) && self.path_blocked_2m(w) == old(
                self,
            ).path_blocked_2m(w) && self.path_blocked_4k(w) == old(self).path_blocked_4k(w) by {
                assert(!same_indices_to(w, virt_start, 1)) by {
                    if same_indices_to(w, virt_start, 1) {
                        assert(level_index(w, 0) == level_index(virt_start, 0));
                        assert(level_index(w, 1) == level_index(virt_start, 1));
                        assert(same_1gib_region(w, virt_start));
                    }
                }
                assert(!same_2mib_region(w, virt_start));
                assert(self.l1_slot_free(w) == s1.l1_slot_free(w));
                assert(s1.l1_slot_free(w) == old(self).l1_slot_free(w));
                assert(self.path_blocked_2m(w) == s1.path_blocked_2m(w));
                assert(s1.path_blocked_2m(w) == old(self).path_blocked_2m(w));
                assert(self.path_blocked_4k(w) == s1.path_blocked_4k(w));
                assert(s1.path_blocked_4k(w) == old(self).path_blocked_4k(w));
            }
        }
        Ok(())
    }

    /// Maps the 2MiB-aligned virtual region at `virt_start` to the
    /// physical region at `phys_start` with a level-2 block descriptor,
    /// creating intermediate tables lazily. Addresses within the region
    /// then translate to `phys_start` plus their offset; nothing else
    /// changes. Fails with `AlreadyMapped` if a block already covers the
    /// region or its slot holds a block or a finer-grained table.
    #[verifier::rlimit(100)]
    pub fn map_2mib_page(
        &mut self,
        virt_start: u64,
        phys_start: u64,
        attr: MemoryAttributes,
    ) -> (r: Result<(), AddressSpaceError>)
        requires
            old(self).wf(),
            phys_start < PHYS_LIMIT,
        ensures
            final(self).wf(),
            final(self).translation == old(self).translation,
            final(self).allocator.spec_start() == old(self).allocator.spec_start(),
            final(self).allocator.spec_end() == old(self).allocator.spec_end(),
            final(self).allocator.spec_page_size() == old(self).allocator.spec_page_size(),
            match r {
                Ok(()) => {
                    &&& virt_start % SIZE_2MIB == 0
                    &&& phys_start % SIZE_2MIB == 0
                    &&& !old(self).path_blocked_2m(virt_start)
                    &&& forall|va: u64|
                        same_2mib_region(va, virt_start) ==> lookup(final(self).ts(), va) == Some(
                            (phys_start + off_2mib(va)) as u64,
                        )
                    &&& forall|va: u64|
                        !same_2mib_region(va, virt_start) ==> lookup(final(self).ts(), va)
                            == lookup(old(self).ts(), va)
                    &&& final(self).allocator.spec_next() == old(self).allocator.spec_next() + 4096
                        * old(self).tables_needed_2m(virt_start)
                    &&& de_attr_idx(path_entry(final(self).ts(), virt_start, 2))
                        == spec_attr_index(attr)
                    &&& de_af(path_entry(final(self).ts(), virt_start, 2))
                    &&& forall|w: u64|
                        !same_1gib_region(w, virt_start) ==> final(self).l1_slot_free(w) == old(
                            self,
                        ).l1_slot_free(w)
                    &&& forall|w: u64|
                        !same_2mib_region(w, virt_start) ==> final(self).path_blocked_2m(w)
                            == old(self).path_blocked_2m(w) && final(self).path_blocked_4k(w)
                            == old(self).path_blocked_4k(w)
                },
                Err(AddressSpaceError::Misaligned) => {
                    &&& *final(self) == *old(self)
                    &&& !(virt_start % SIZE_2MIB == 0 && phys_start % SIZE_2MIB == 0)
                },
                Err(AddressSpaceError::AlreadyMapped) => {
                    &&& *final(self) == *old(self)
                    &&& virt_start % SIZE_2MIB == 0 && phys_start % SIZE_2MIB == 0
                    &&& old(self).path_blocked_2m(virt_start)
                },
                Err(AddressSpaceError::AllocationExhausted) => {
                    &&& virt_start % SIZE_2MIB == 0 && phys_start % SIZE_2MIB == 0
                    &&& !old(self).path_blocked_2m(virt_start)
                    &&& forall|va: u64|
                        lookup(final(self).ts(), va) == lookup(old(self).ts(), va)
                    &&& final(self).allocator.spec_next() == final(self).allocator.spec_end()
                    &&& old(self).allocator.spec_next() + 4096 * old(self).tables_needed_2m(
                        virt_start,
                    ) > old(self).allocator.spec_end()
                },
                _ => false,
            },
    {
        if virt_start % SIZE_2MIB != 0 || phys_start % SIZE_2MIB != 0 {
            return Err(AddressSpaceError::Misaligned);
        }
        proof {
            crate::descriptor::lemma_zero_descriptor();
            assert(reached(old(self).ts(), virt_start, 0) == Some(0int));
        }
        let l0i = level0_index(virt_start);
        let j1 = match self.descend(0, l0i, Ghost(virt_start), Ghost(0)) {
            Ok(j) => j,
            Err(e) => {
                proof {
                    if e == AddressSpaceError::AlreadyMapped {
                        let d0 = path_entry(old(self).ts(), virt_start, 0);
                        assert(spec_entry_wf(old(self).ts(), 0, d0));
                        assert(false);
                    }
                    assert(reached(old(self).ts(), virt_start, 1) is None);
                    assert(reached(old(self).ts(), virt_start, 2) is None);
                }
                return Err(e);
            },
        };
        let ghost s1 = *self;
        let l1i = level1_index(virt_start);
        let j2 = match self.descend(j1, l1i, Ghost(virt_start), Ghost(1)) {
            Ok(j) => j,
            Err(e) => {
                proof {
                    crate::descriptor::lemma_zero_descriptor();
                    if e == AddressSpaceError::AlreadyMapped {
                        // A terminal descriptor at level 1 means the old
                        // state already had it: a fresh level-1 table
                        // would have been empty.
                        assert(reached(old(self).ts(), virt_start, 1) is Some);
                        assert(s1 == *old(self));
                        assert(old(self).path_blocked_2m(virt_start));
                    } else {
                        assert(reached(s1.ts(), virt_start, 2) is None);
                        if reached(old(self).ts(), virt_start, 1) is Some {
                            assert(s1 == *old(self));
                        } else {
                            assert(reached(old(self).ts(), virt_start, 2) is None);
                        }
                    }
                }
                return Err(e);
            },
        };
        let ghost s2 = *self;
        let l2i = level2_index(virt_start);
        proof {
            lemma_reached_level(s2.ts(), virt_start, 2);
            assert(table_frame_wf(s2.ts()[j2 as int]));
        }
        let d = self.tables[j2].entries[l2i as usize];
        proof {
            assert(d == path_entry(s2.ts(), virt_start, 2));
        }
        if descriptor_is_valid(d) {
            proof {
                crate::descriptor::lemma_zero_descriptor();
                // Every created table on the way is empty, so a live slot
                // means no table was created: the old state is untouched.
                assert(reached(s1.ts(), virt_start, 2) is Some);
                assert(s2 == s1);
                assert(reached(old(self).ts(), virt_start, 1) is Some);
                assert(s1 == *old(self));
                assert(old(self).path_blocked_2m(virt_start));
            }
            return Err(AddressSpaceError::AlreadyMapped);
        }
        proof {
            crate::descriptor::lemma_zero_descriptor();
            assert(spec_entry_wf(s2.ts(), 2, d));
            assert(d == 0);
        }
        let attr_idx = translate_memory_attrib(attr);
        let nd = make_block_descriptor_l2(phys_start, attr_idx as u64);
        self.write_terminal(j2, l2i, nd, Ghost(virt_start), Ghost(2));
        proof {
            let ts2 = self.ts();
            crate::descriptor::lemma_zero_descriptor();
            assert(same_indices_to(virt_start, virt_start, 2));
            assert(path_entry(ts2, virt_start, 2) == nd);
            // No block stood anywhere on the old path.
            assert(!old(self).path_blocked_2m(virt_start)) by {
                if reached(old(self).ts(), virt_start, 1) is Some {
                    assert(s1 == *old(self));
                    if reached(old(self).ts(), virt_start, 2) is Some {
                        assert(s2 == s1);
                        assert(path_entry(old(self).ts(), virt_start, 2) == d);
                    } else {
                        assert(path_entry(s1.ts(), virt_start, 1) == 0 || (de_valid(path_entry(
                            s1.ts(),
                            virt_start,
                            1,
                        )) && de_table(path_entry(s1.ts(), virt_start, 1))));
                    }
                }
            }
            // Exactly the missing tables were allocated.
            assert(final(self).allocator.spec_next() == old(self).allocator.spec_next() + 4096
                * old(self).tables_needed_2m(virt_start)) by {
                if reached(old(self).ts(), virt_start, 2) is Some {
                    assert(s1 == *old(self) && s2 == s1);
                } else if reached(old(self).ts(), virt_start, 1) is Some {
                    assert(s1 == *old(self));
                    assert(s2.allocator.spec_next() == s1.allocator.spec_next() + 4096);
                } else {
                    assert(reached(s1.ts(), virt_start, 2) is None);
                    assert(s1.allocator.spec_next() == old(self).allocator.spec_next() + 4096);
                    assert(s2.allocator.spec_next() == s1.allocator.spec_next() + 4096);
                }
            }
            assert forall|va: u64| same_2mib_region(va, virt_start) implies lookup(ts2, va)
                == Some((phys_start + off_2mib(va)) as u64) by {
                lemma_index_bounds(va);
                assert(same_indices_to(va, virt_start, 2)) by {
                    assert forall|l2: int| 0 <= l2 <= 2 implies level_index(va, l2)
                        == level_index(virt_start, l2) by {}
                }
                assert(reached(ts2, va, 2) == Some(j2 as int) && path_entry(ts2, va, 2) == nd);
            }
            assert forall|va: u64| !same_2mib_region(va, virt_start) implies lookup(ts2, va)
                == lookup(old(self).ts(), va) by {
                assert(!same_indices_to(va, virt_start, 2)) by {
                    if same_indices_to(va, virt_start, 2) {
                        assert(level_index(va, 0) == level_index(virt_start, 0));
                        assert(level_index(va, 1) == level_index(virt_start, 1));
                        assert(level_index(va, 2) == level_index(virt_start, 2));
                        assert(same_2mib_region(va, virt_start));
                    }
                }
                assert(lookup(ts2, va) == lookup(s2.ts(), va));
                assert(lookup(s2.ts(), va) == lookup(old(self).ts(), va));
            }
            assert forall|w: u64| !same_1gib_region(w, virt_start) implies self.l1_slot_free(w)
                == old(self).l1_slot_free(w) by {
                assert(!same_2mib_region(w, virt_start));
                assert(!same_indices_to(w, virt_start, 2)) by {
                    if same_indices_to(w, virt_start, 2) {
                        assert(level_index(w, 0) == level_index(virt_start, 0));
                        assert(level_index(w, 1) == level_index(virt_start, 1));
                        assert(same_1gib_region(w, virt_start));
                    }
                }
                assert(self.l1_slot_free(w) == s2.l1_slot_free(w));
                assert(s2.l1_slot_free(w) == s1.l1_slot_free(w));
                assert(s1.l1_slot_free(w) == old(self).l1_slot_free(w));
            }
            assert forall|w: u64| !same_2mib_region(w, virt_start) implies self.path_blocked_2m(
                w,
            ) == old(self).path_blocked_2m(w) && self.path_blocked_4k(w) == old(
                self,
            ).path_blocked_4k(w) by {
                assert(!same_indices_to(w, virt_start, 2)) by {
                    if same_indices_to(w, virt_start, 2) {
                        assert(level_index(w, 0) == level_index(virt_start, 0));
                        assert(level_index(w, 1) == level_index(virt_start, 1));
                        assert(level_index(w, 2) == level_index(virt_start, 2));
                        assert(same_2mib_region(w, virt_start));
                    }
                }
                assert(self.path_blocked_2m(w) == s2.path_blocked_2m(w));
                assert(s2.path_blocked_2m(w) == s1.path_blocked_2m(w));
                assert(s1.path_blocked_2m(w) == old(self).path_blocked_2m(w));
                assert(self.path_blocked_4k(w) == s2.path_blocked_4k(w));
                assert(s2.path_blocked_4k(w) == s1.path_blocked_4k(w));
                assert(s1.path_blocked_4k(w) == old(self).path_blocked_4k(w));
            }
        }
        Ok(())
    }

    /// Walks — creating missing tables on the way — to the level-3 table
    /// covering `virt`. No translation changes; only empty slots gain
    /// links to fresh, empty tables.
    #[verifier::rlimit(100)]
    fn walk_create_l3(&mut self, virt: u64) -> (r: Result<usize, AddressSpaceError>)
        requires
            old(self).wf(),
        ensures
            final(self).wf(),
            final(self).translation == old(self).translation,
            final(self).allocator.spec_start() == old(self).allocator.spec_start(),
            final(self).allocator.spec_end() == old(self).allocator.spec_end(),
            final(self).allocator.spec_page_size() == old(self).allocator.spec_page_size(),
            match r {
                Ok(j3) => {
                    &&& reached(final(self).ts(), virt, 3) == Some(j3 as int)
                    &&& forall|va: u64|
                        lookup(final(self).ts(), va) == lookup(old(self).ts(), va)
                    &&& !(reached(old(self).ts(), virt, 1) is Some && de_valid(
                        path_entry(old(self).ts(), virt, 1),
                    ) && !de_table(path_entry(old(self).ts(), virt, 1)))
                    &&& !(reached(old(self).ts(), virt, 2) is Some && de_valid(
                        path_entry(old(self).ts(), virt, 2),
                    ) && !de_table(path_entry(old(self).ts(), virt, 2)))
                    &&& (reached(old(self).ts(), virt, 3) is Some ==> *final(self) == *old(self))
                    &&& (reached(old(self).ts(), virt, 3) is None ==> path_entry(
                        final(self).ts(),
                        virt,
                        3,
                    ) == 0)
                    &&& final(self).allocator.spec_next() == old(self).allocator.spec_next() + 4096
                        * old(self).tables_needed_4k(virt)
                    &&& forall|w: u64|
                        !same_1gib_region(w, virt) ==> final(self).l1_slot_free(w) == old(
                            self,
                        ).l1_slot_free(w)
                    &&& forall|w: u64|
                        !same_2mib_region(w, virt) ==> final(self).path_blocked_2m(w) == old(
                            self,
                        ).path_blocked_2m(w)
                    &&& forall|w: u64|
                        final(self).path_blocked_4k(w) == old(self).path_blocked_4k(w)
                },
                Err(AddressSpaceError::AlreadyMapped) => {
                    &&& *final(self) == *old(self)
                    &&& old(self).path_blocked_4k(virt)
                },
                Err(AddressSpaceError::AllocationExhausted) => {
                    &&& !old(self).path_blocked_4k(virt)
                    &&& forall|va: u64|
                        lookup(final(self).ts(), va) == lookup(old(self).ts(), va)
                    &&& final(self).allocator.spec_next() == final(self).allocator.spec_end()
                    &&& old(self).allocator.spec_next() + 4096 * old(self).tables_needed_4k(virt)
                        > old(self).allocator.spec_end()
                },
                _ => false,
            },
    {
        proof {
            crate::descriptor::lemma_zero_descriptor();
            assert(reached(old(self).ts(), virt, 0) == Some(0int));
        }
        let l0i = level0_index(virt);
        let j1 = match self.descend(0, l0i, Ghost(virt), Ghost(0)) {
            Ok(j) => j,
            Err(e) => {
                proof {
                    if e == AddressSpaceError::AlreadyMapped {
                        let d0 = path_entry(old(self).ts(), virt, 0);
                        assert(spec_entry_wf(old(self).ts(), 0, d0));
                        assert(false);
                    }
                    assert(reached(old(self).ts(), virt, 1) is None);
                    assert(reached(old(self).ts(), virt, 2) is None);
                    assert(reached(old(self).ts(), virt, 3) is None);
                }
                return Err(e);
            },
        };
        let ghost s1 = *self;
        let l1i = level1_index(virt);
        let j2 = match self.descend(j1, l1i, Ghost(virt), Ghost(1)) {
            Ok(j) => j,
            Err(e) => {
                proof {
                    crate::descriptor::lemma_zero_descriptor();
                    if e == AddressSpaceError::AlreadyMapped {
                        assert(reached(old(self).ts(), virt, 1) is Some);
                        assert(s1 == *old(self));
                        assert(old(self).path_blocked_4k(virt));
                    } else {
                        assert(reached(s1.ts(), virt, 2) is None);
                        assert(reached(s1.ts(), virt, 3) is None);
                        if reached(old(self).ts(), virt, 1) is Some {
                            assert(s1 == *old(self));
                        } else {
                            assert(reached(old(self).ts(), virt, 2) is None);
                            assert(reached(old(self).ts(), virt, 3) is None);
                        }
                    }
                }
                return Err(e);
            },
        };
        let ghost s2 = *self;
        let l2i = level2_index(virt);
        let j3 = match self.descend(j2, l2i, Ghost(virt), Ghost(2)) {
            Ok(j) => j,
            Err(e) => {
                proof {
                    crate::descriptor::lemma_zero_descriptor();
                    if e == AddressSpaceError::AlreadyMapped {
                        // A terminal at level 2 was there before any
                        // fresh (empty) table could have supplied it.
                        assert(reached(s1.ts(), virt, 2) is Some);
                        assert(s2 == s1);
                        assert(reached(old(self).ts(), virt, 1) is Some);
                        assert(s1 == *old(self));
                        assert(old(self).path_blocked_4k(virt));
                    } else {
                        assert(reached(s2.ts(), virt, 3) is None);
                        if reached(old(self).ts(), virt, 2) is Some {
                            assert(s1 == *old(self) && s2 == s1);
                        } else if reached(old(self).ts(), virt, 1) is Some {
                            assert(s1 == *old(self));
                            assert(s2.allocator.spec_next() == s1.allocator.spec_next() + 4096);
                            assert(reached(old(self).ts(), virt, 3) is None);
                        } else {
                            assert(reached(s1.ts(), virt, 2) is None);
                            assert(s1.allocator.spec_next() == old(self).allocator.spec_next()
                                + 4096);
                            assert(s2.allocator.spec_next() == s1.allocator.spec_next() + 4096);
                            assert(reached(old(self).ts(), virt, 2) is None);
                            assert(reached(old(self).ts(), virt, 3) is None);
                        }
                    }
                }
                return Err(e);
            },
        };
        proof {
            let ghost s3 = *self;
            crate::descriptor::lemma_zero_descriptor();
            assert(!(reached(old(self).ts(), virt, 1) is Some && de_valid(
                path_entry(old(self).ts(), virt, 1),
            ) && !de_table(path_entry(old(self).ts(), virt, 1)))) by {
                if reached(old(self).ts(), virt, 1) is Some {
                    assert(s1 == *old(self));
                    assert(path_entry(s1.ts(), virt, 1) == 0 || (de_valid(path_entry(
                        s1.ts(),
                        virt,
                        1,
                    )) && de_table(path_entry(s1.ts(), virt, 1))));
                }
            }
            assert(!(reached(old(self).ts(), virt, 2) is Some && de_valid(
                path_entry(old(self).ts(), virt, 2),
            ) && !de_table(path_entry(old(self).ts(), virt, 2)))) by {
                if reached(old(self).ts(), virt, 2) is Some {
                    assert(s1 == *old(self) && s2 == s1);
                    assert(path_entry(s2.ts(), virt, 2) == 0 || (de_valid(path_entry(
                        s2.ts(),
                        virt,
                        2,
                    )) && de_table(path_entry(s2.ts(), virt, 2))));
                }
            }
            assert((reached(old(self).ts(), virt, 3) is Some ==> *self == *old(self))) by {
                if reached(old(self).ts(), virt, 3) is Some {
                    assert(s1 == *old(self) && s2 == s1 && *self == s2);
                }
            }
            assert((reached(old(self).ts(), virt, 3) is None ==> path_entry(self.ts(), virt, 3)
                == 0)) by {
                if reached(old(self).ts(), virt, 3) is None {
                    if reached(old(self).ts(), virt, 2) is Some {
                        assert(s1 == *old(self) && s2 == s1);
                        assert(path_entry(s2.ts(), virt, 3) == 0);
                    } else {
                        assert(path_entry(s2.ts(), virt, 3) == 0);
                    }
                }
            }
            assert forall|w: u64| !same_1gib_region(w, virt) implies self.l1_slot_free(w) == old(
                self,
            ).l1_slot_free(w) by {
                assert(self.l1_slot_free(w) == s2.l1_slot_free(w));
                assert(s2.l1_slot_free(w) == s1.l1_slot_free(w));
                assert(s1.l1_slot_free(w) == old(self).l1_slot_free(w));
            }
            assert forall|w: u64| !same_2mib_region(w, virt) implies self.path_blocked_2m(w)
                == old(self).path_blocked_2m(w) by {
                assert(self.path_blocked_2m(w) == s2.path_blocked_2m(w));
                assert(s2.path_blocked_2m(w) == s1.path_blocked_2m(w));
                assert(s1.path_blocked_2m(w) == old(self).path_blocked_2m(w));
            }
            assert forall|w: u64| self.path_blocked_4k(w) == old(self).path_blocked_4k(w) by {
                assert(self.path_blocked_4k(w) == s2.path_blocked_4k(w));
                assert(s2.path_blocked_4k(w) == s1.path_blocked_4k(w));
                assert(s1.path_blocked_4k(w) == old(self).path_blocked_4k(w));
            }
            assert(self.allocator.spec_next() == old(self).allocator.spec_next() + 4096 * old(
                self,
            ).tables_needed_4k(virt)) by {
                if reached(old(self).ts(), virt, 3) is Some {
                    assert(s1 == *old(self) && s2 == s1 && *self == s2);
                } else if reached(old(self).ts(), virt, 2) is Some {
                    assert(s1 == *old(self) && s2 == s1);
                    assert(self.allocator.spec_next() == s2.allocator.spec_next() + 4096);
                } else if reached(old(self).ts(), virt, 1) is Some {
                    assert(s1 == *old(self));
                    assert(reached(s1.ts(), virt, 2) is None);
                    assert(s2.allocator.spec_next() == s1.allocator.spec_next() + 4096);
                    assert(reached(s2.ts(), virt, 3) is None);
                    assert(self.allocator.spec_next() == s2.allocator.spec_next() + 4096);
                } else {
                    assert(reached(s1.ts(), virt, 2) is None);
                    assert(s1.allocator.spec_next() == old(self).allocator.spec_next() + 4096);
                    assert(s2.allocator.spec_next() == s1.allocator.spec_next() + 4096);
                    assert(reached(s2.ts(), virt, 3) is None);
                    assert(self.allocator.spec_next() == s2.allocator.spec_next() + 4096);
                }
            }
        }
        Ok(j3)
    }

    /// Maps the 4KiB-aligned virtual page at `virt_start` to the physical
    /// frame at `phys_start` with a level-3 page descriptor, creating
    /// intermediate tables lazily. Addresses within the page then
    /// translate to `phys_start` plus their offset; nothing else changes.
    /// Fails with `AlreadyMapped` if a block already covers the page or
    /// its slot holds a live descriptor.
    #[verifier::rlimit(100)]
    pub fn map_4kib_page(
        &mut self,
        virt_start: u64,
        phys_start: u64,
        attr: MemoryAttributes,
    ) -> (r: Result<(), AddressSpaceError>)
        requires
            old(self).wf(),
            phys_start < PHYS_LIMIT,
        ensures
            final(self).wf(),
            final(self).translation == old(self).translation,
            final(self).allocator.spec_start() == old(self).allocator.spec_start(),
            final(self).allocator.spec_end() == old(self).allocator.spec_end(),
            final(self).allocator.spec_page_size() == old(self).allocator.spec_page_size(),
            match r {
                Ok(()) => {
                    &&& virt_start % SIZE_4KIB == 0
                    &&& phys_start % SIZE_4KIB == 0
                    &&& !old(self).path_blocked_4k(virt_start)
                    &&& forall|va: u64|
                        same_page(va, virt_start) ==> lookup(final(self).ts(), va) == Some(
                            (phys_start + off_4kib(va)) as u64,
                        )
                    &&& forall|va: u64|
                        !same_page(va, virt_start) ==> lookup(final(self).ts(), va) == lookup(
                            old(self).ts(),
                            va,
                        )
                    &&& final(self).allocator.spec_next() == old(self).allocator.spec_next() + 4096
                        * old(self).tables_needed_4k(virt_start)
                    &&& de_attr_idx(path_entry(final(self).ts(), virt_start, 3))
                        == spec_attr_index(attr)
                    &&& de_af(path_entry(final(self).ts(), virt_start, 3))
                    &&& forall|w: u64|
                        !same_1gib_region(w, virt_start) ==> final(self).l1_slot_free(w) == old(
                            self,
                        ).l1_slot_free(w)
                    &&& forall|w: u64|
                        !same_2mib_region(w, virt_start) ==> final(self).path_blocked_2m(w)
                            == old(self).path_blocked_2m(w)
                    &&& forall|w: u64|
                        !same_page(w, virt_start) ==> final(self).path_blocked_4k(w) == old(
                            self,
                        ).path_blocked_4k(w)
                },
                Err(AddressSpaceError::Misaligned) => {
                    &&& *final(self) == *old(self)
                    &&& !(virt_start % SIZE_4KIB == 0 && phys_start % SIZE_4KIB == 0)
                },
                Err(AddressSpaceError::AlreadyMapped) => {
                    &&& *final(self) == *old(self)
                    &&& virt_start % SIZE_4KIB == 0 && phys_start % SIZE_4KIB == 0
                    &&& old(self).path_blocked_4k(virt_start)
                },
                Err(AddressSpaceError::AllocationExhausted) => {
                    &&& virt_start % SIZE_4KIB == 0 && phys_start % SIZE_4KIB == 0
                    &&& !old(self).path_blocked_4k(virt_start)
                    &&& forall|va: u64|
                        lookup(final(self).ts(), va) == lookup(old(self).ts(), va)
                    &&& final(self).allocator.spec_next() == final(self).allocator.spec_end()
                    &&& old(self).allocator.spec_next() + 4096 * old(self).tables_needed_4k(
                        virt_start,
                    ) > old(self).allocator.spec_end()
                },
                _ => false,
            },
    {
        if virt_start % SIZE_4KIB != 0 || phys_start % SIZE_4KIB != 0 {
            return Err(AddressSpaceError::Misaligned);
        }
        let j3 = match self.walk_create_l3(virt_start) {
            Ok(j) => j,
            Err(e) => {
                return Err(e);
            },
        };
        let ghost s3 = *self;
        let l3i = level3_index(virt_start);
        proof {
            lemma_reached_level(s3.ts(), virt_start, 3);
            assert(table_frame_wf(s3.ts()[j3 as int]));
        }
        let d = self.tables[j3].entries[l3i as usize];
        proof {
            assert(d == path_entry(s3.ts(), virt_start, 3));
        }
        if descriptor_is_valid(d) {
            proof {
                crate::descriptor::lemma_zero_descriptor();
                assert(reached(old(self).ts(), virt_start, 3) is Some);
                assert(s3 == *old(self));
                assert(old(self).path_blocked_4k(virt_start));
            }
            return Err(AddressSpaceError::AlreadyMapped);
        }
        proof {
            crate::descriptor::lemma_zero_descriptor();
            assert(spec_entry_wf(s3.ts(), 3, d));
            assert(d == 0);
            assert(!old(self).path_blocked_4k(virt_start)) by {
                if reached(old(self).ts(), virt_start, 3) is Some {
                    assert(s3 == *old(self));
                }
            }
        }
        let attr_idx = translate_memory_attrib(attr);
        let nd = make_page_descriptor(phys_start, attr_idx as u64);
        self.write_terminal(j3, l3i, nd, Ghost(virt_start), Ghost(3));
        proof {
            let ts2 = self.ts();
            assert(same_indices_to(virt_start, virt_start, 3));
            assert(path_entry(ts2, virt_start, 3) == nd);
            assert forall|va: u64| same_page(va, virt_start) implies lookup(ts2, va) == Some(
                (phys_start + off_4kib(va)) as u64,
            ) by {
                lemma_index_bounds(va);
                assert(same_indices_to(va, virt_start, 3)) by {
                    assert forall|l2: int| 0 <= l2 <= 3 implies level_index(va, l2)
                        == level_index(virt_start, l2) by {}
                }
                assert(reached(ts2, va, 3) == Some(j3 as int) && path_entry(ts2, va, 3) == nd);
            }
            assert forall|va: u64| !same_page(va, virt_start) implies lookup(ts2, va) == lookup(
                old(self).ts(),
                va,
            ) by {
                assert(!same_indices_to(va, virt_start, 3)) by {
                    if same_indices_to(va, virt_start, 3) {
                        assert(level_index(va, 0) == level_index(virt_start, 0));
                        assert(level_index(va, 1) == level_index(virt_start, 1));
                        assert(level_index(va, 2) == level_index(virt_start, 2));
                        assert(level_index(va, 3) == level_index(virt_start, 3));
                        assert(same_page(va, virt_start));
                    }
                }
                assert(lookup(ts2, va) == lookup(s3.ts(), va));
                assert(lookup(s3.ts(), va) == lookup(old(self).ts(), va));
            }
            assert forall|w: u64| !same_1gib_region(w, virt_start) implies self.l1_slot_free(w)
                == old(self).l1_slot_free(w) by {
                assert(!same_indices_to(w, virt_start, 3)) by {
                    if same_indices_to(w, virt_start, 3) {
                        assert(level_index(w, 0) == level_index(virt_start, 0));
                        assert(level_index(w, 1) == level_index(virt_start, 1));
                        assert(same_1gib_region(w, virt_start));
                    }
                }
                assert(self.l1_slot_free(w) == s3.l1_slot_free(w));
                assert(s3.l1_slot_free(w) == old(self).l1_slot_free(w));
            }
            assert forall|w: u64| !same_2mib_region(w, virt_start) implies self.path_blocked_2m(
                w,
            ) == old(self).path_blocked_2m(w) by {
                assert(!same_indices_to(w, virt_start, 3)) by {
                    if same_indices_to(w, virt_start, 3) {
                        assert(level_index(w, 0) == level_index(virt_start, 0));
                        assert(level_index(w, 1) == level_index(virt_start, 1));
                        assert(level_index(w, 2) == level_index(virt_start, 2));
                        assert(same_2mib_region(w, virt_start));
                    }
                }
                assert(self.path_blocked_2m(w) == s3.path_blocked_2m(w));
                assert(s3.path_blocked_2m(w) == old(self).path_blocked_2m(w));
            }
            assert forall|w: u64| !same_page(w, virt_start) implies self.path_blocked_4k(w)
                == old(self).path_blocked_4k(w) by {
                assert(!same_indices_to(w, virt_start, 3)) by {
                    if same_indices_to(w, virt_start, 3) {
                        assert(level_index(w, 0) == level_index(virt_start, 0));
                        assert(level_index(w, 1) == level_index(virt_start, 1));
                        assert(level_index(w, 2) == level_index(virt_start, 2));
                        assert(level_index(w, 3) == level_index(virt_start, 3));
                        assert(same_page(w, virt_start));
                    }
                }
                assert(self.path_blocked_4k(w) == s3.path_blocked_4k(w));
                assert(s3.path_blocked_4k(w) == old(self).path_blocked_4k(w));
            }
        }
        Ok(())
    }

    /// Resolves a virtual address exactly as the hardware walker would:
    /// through a 1GiB block, a 2MiB block or a 4KiB page, whichever
    /// terminal descriptor the walk meets first.
    pub fn virt_to_phys(&self, virt_addr: u64) -> (r: Result<u64, AddressSpaceError>)
        requires
            self.wf(),
        ensures
            r == match lookup(self.ts(), virt_addr) {
                Some(p) => Ok::<u64, AddressSpaceError>(p),
                None => Err::<u64, AddressSpaceError>(AddressSpaceError::TranslationNotFound),
            },
    {
        let ghost ts = self.ts();
        proof {
            lemma_index_bounds(virt_addr);
            crate::descriptor::lemma_zero_descriptor();
            assert(reached(ts, virt_addr, 0) == Some(0int));
            assert(table_frame_wf(ts[0]));
        }
        // Level 0: only links can live here.
        let l0i = level0_index(virt_addr);
        let d0 = self.tables[0].entries[l0i as usize];
        proof {
            assert(d0 == path_entry(ts, virt_addr, 0));
            assert(spec_entry_wf(ts, 0, d0));
        }
        if !descriptor_is_valid(d0) {
            proof {
                assert(reached(ts, virt_addr, 1) is None);
            }
            return Err(AddressSpaceError::TranslationNotFound);
        }
        let j1 = match self.find_table(descriptor_next_table(d0)) {
            Some(j) => j,
            None => {
                proof {
                    let p = de_next_table(d0);
                    let j2 = choose|j2: int|
                        0 <= j2 < ts.len() && (#[trigger] ts[j2]).phys == p && ts[j2].level@ == 1;
                    assert(ts[j2].phys == p);
                    assert(false);
                }
                return Err(AddressSpaceError::TranslationNotFound);
            },
        };
        proof {
            assert(reached(ts, virt_addr, 1) == Some(j1 as int));
            lemma_reached_level(ts, virt_addr, 1);
            assert(table_frame_wf(ts[j1 as int]));
        }
        // Level 1: a block here is a 1GiB leaf.
        let l1i = level1_index(virt_addr);
        let d1 = self.tables[j1].entries[l1i as usize];
        proof {
            assert(d1 == path_entry(ts, virt_addr, 1));
            assert(spec_entry_wf(ts, 1, d1));
        }
        if !descriptor_is_valid(d1) {
            return Err(AddressSpaceError::TranslationNotFound);
        }
        if !descriptor_is_table(d1) {
            proof {
                lemma_out_bounds(d1);
            }
            return Ok(descriptor_block_out_l1(d1) + offset_1gib(virt_addr));
        }
        let j2 = match self.find_table(descriptor_next_table(d1)) {
            Some(j) => j,
            None => {
                proof {
                    let p = de_next_table(d1);
                    let jx = choose|jx: int|
                        0 <= jx < ts.len() && (#[trigger] ts[jx]).phys == p && ts[jx].level@ == 2;
                    assert(ts[jx].phys == p);
                    assert(false);
                }
                return Err(AddressSpaceError::TranslationNotFound);
            },
        };
        proof {
            assert(reached(ts, virt_addr, 2) == Some(j2 as int));
            lemma_reached_level(ts, virt_addr, 2);
            assert(table_frame_wf(ts[j2 as int]));
        }
        // Level 2: a block here is a 2MiB leaf.
        let l2i = level2_index(virt_addr);
        let d2 = self.tables[j2].entries[l2i as usize];
        proof {
            assert(d2 == path_entry(ts, virt_addr, 2));
            assert(spec_entry_wf(ts, 2, d2));
        }
        if !descriptor_is_valid(d2) {
            return Err(AddressSpaceError::TranslationNotFound);
        }
        if !descriptor_is_table(d2) {
            proof {
                lemma_out_bounds(d2);
            }
            return Ok(descriptor_block_out_l2(d2) + offset_2mib(virt_addr));
        }
        let j3 = match self.find_table(descriptor_next_table(d2)) {
            Some(j) => j,
            None => {
                proof {
                    let p = de_next_table(d2);
                    let jx = choose|jx: int|
                        0 <= jx < ts.len() && (#[trigger] ts[jx]).phys == p && ts[jx].level@ == 3;
                    assert(ts[jx].phys == p);
                    assert(false);
                }
                return Err(AddressSpaceError::TranslationNotFound);
            },
        };
        proof {
            assert(reached(ts, virt_addr, 3) == Some(j3 as int));
            lemma_reached_level(ts, virt_addr, 3);
            assert(table_frame_wf(ts[j3 as int]));
        }
        // Level 3: only a live page descriptor terminates the walk.
        let l3i = level3_index(virt_addr);
        let d3 = self.tables[j3].entries[l3i as usize];
        proof {
            assert(d3 == path_entry(ts, virt_addr, 3));
            assert(spec_entry_wf(ts, 3, d3));
        }
        if !descriptor_is_valid(d3) {
            return Err(AddressSpaceError::TranslationNotFound);
        }
        proof {
            lemma_out_bounds(d3);
        }
        Ok(descriptor_page_out(d3) + offset_4kib(virt_addr))
    }

    /// Removes the 1GiB block mapping `virt_start` to `phys_start`.
    /// Addresses of the region then translate to nothing; nothing else
    /// changes. Fails with `GranuleUnsupported` when the region is mapped
    /// at a finer granularity, and with `TranslationNotFound` when no
    /// such block is live.
    pub fn unmap_1gib_page(&mut self, virt_start: u64, phys_start: u64) -> (r: Result<
        (),
        AddressSpaceError,
    >)
        requires
            old(self).wf(),
        ensures
            final(self).wf(),
            final(self).translation == old(self).translation,
            final(self).allocator == old(self).allocator,
            match r {
                Ok(()) => {
                    &&& virt_start % SIZE_1GIB == 0 && phys_start % SIZE_1GIB == 0
                    &&& reached(old(self).ts(), virt_start, 1) is Some
                    &&& de_valid(path_entry(old(self).ts(), virt_start, 1))
                    &&& !de_table(path_entry(old(self).ts(), virt_start, 1))
                    &&& de_block_out_l1(path_entry(old(self).ts(), virt_start, 1)) == phys_start
                    &&& forall|va: u64|
                        same_1gib_region(va, virt_start) ==> lookup(final(self).ts(), va) is None
                    &&& forall|va: u64|
                        !same_1gib_region(va, virt_start) ==> lookup(final(self).ts(), va)
                            == lookup(old(self).ts(), va)
                },
                Err(AddressSpaceError::Misaligned) => {
                    &&& *final(self) == *old(self)
                    &&& !(virt_start % SIZE_1GIB == 0 && phys_start % SIZE_1GIB == 0)
                },
                Err(AddressSpaceError::GranuleUnsupported) => {
                    &&& *final(self) == *old(self)
                    &&& virt_start % SIZE_1GIB == 0 && phys_start % SIZE_1GIB == 0
                    &&& reached(old(self).ts(), virt_start, 1) is Some
                    &&& de_valid(path_entry(old(self).ts(), virt_start, 1))
                    &&& de_table(path_entry(old(self).ts(), virt_start, 1))
                },
                Err(AddressSpaceError::TranslationNotFound) => {
                    &&& *final(self) == *old(self)
                    &&& virt_start % SIZE_1GIB == 0 && phys_start % SIZE_1GIB == 0
                    &&& (reached(old(self).ts(), virt_start, 1) is None || path_entry(
                        old(self).ts(),
                        virt_start,
                        1,
                    ) == 0 || (de_valid(path_entry(old(self).ts(), virt_start, 1)) && !de_table(
                        path_entry(old(self).ts(), virt_start, 1),
                    ) && de_block_out_l1(path_entry(old(self).ts(), virt_start, 1))
                        != phys_start))
                },
                _ => false,
            },
    {
        if virt_start % SIZE_1GIB != 0 || phys_start % SIZE_1GIB != 0 {
            return Err(AddressSpaceError::Misaligned);
        }
        let ghost ts = self.ts();
        proof {
            lemma_index_bounds(virt_start);
            crate::descriptor::lemma_zero_descriptor();
            assert(reached(ts, virt_start, 0) == Some(0int));
            assert(table_frame_wf(ts[0]));
        }
        let l0i = level0_index(virt_start);
        let d0 = self.tables[0].entries[l0i as usize];
        proof {
            assert(d0 == path_entry(ts, virt_start, 0));
            assert(spec_entry_wf(ts, 0, d0));
        }
        if !descriptor_is_valid(d0) {
            proof {
                assert(reached(ts, virt_start, 1) is None);
            }
            return Err(AddressSpaceError::TranslationNotFound);
        }
        let j1 = match self.find_table(descriptor_next_table(d0)) {
            Some(j) => j,
            None => {
                proof {
                    let p = de_next_table(d0);
                    let jx = choose|jx: int|
                        0 <= jx < ts.len() && (#[trigger] ts[jx]).phys == p && ts[jx].level@ == 1;
                    assert(ts[jx].phys == p);
                    assert(false);
                }
                return Err(AddressSpaceError::TranslationNotFound);
            },
        };
        proof {
            assert(reached(ts, virt_start, 1) == Some(j1 as int));
            lemma_reached_level(ts, virt_start, 1);
            assert(table_frame_wf(ts[j1 as int]));
        }
        let l1i = level1_index(virt_start);
        let d1 = self.tables[j1].entries[l1i as usize];
        proof {
            assert(d1 == path_entry(ts, virt_start, 1));
            assert(spec_entry_wf(ts, 1, d1));
        }
        if !descriptor_is_valid(d1) {
            proof {
                assert(d1 == 0);
            }
            return Err(AddressSpaceError::TranslationNotFound);
        }
        if descriptor_is_table(d1) {
            return Err(AddressSpaceError::GranuleUnsupported);
        }
        if descriptor_block_out_l1(d1) != phys_start {
            return Err(AddressSpaceError::TranslationNotFound);
        }
        self.write_terminal(j1, l1i, 0, Ghost(virt_start), Ghost(1));
        proof {
            let ts2 = self.ts();
            crate::descriptor::lemma_zero_descriptor();
            assert forall|va: u64| same_1gib_region(va, virt_start) implies lookup(ts2, va)
                is None by {
                lemma_index_bounds(va);
                assert(same_indices_to(va, virt_start, 1)) by {
                    assert forall|l2: int| 0 <= l2 <= 1 implies level_index(va, l2)
                        == level_index(virt_start, l2) by {}
                }
                assert(reached(ts2, va, 1) == Some(j1 as int) && path_entry(ts2, va, 1) == 0);
            }
            assert forall|va: u64| !same_1gib_region(va, virt_start) implies lookup(ts2, va)
                == lookup(old(self).ts(), va) by {
                assert(!same_indices_to(va, virt_start, 1)) by {
                    if same_indices_to(va, virt_start, 1) {
                        assert(level_index(va, 0) == level_index(virt_start, 0));
                        assert(level_index(va, 1) == level_index(virt_start, 1));
                        assert(same_1gib_region(va, virt_start));
                    }
                }
            }
        }
        Ok(())
    }

    /// Removes the 2MiB block mapping `virt_start` to `phys_start`, as
    /// `unmap_1gib_page` does for its granule.
    pub fn unmap_2mib_page(&mut self, virt_start: u64, phys_start: u64) -> (r: Result<
        (),
        AddressSpaceError,
    >)
        requires
            old(self).wf(),
        ensures
            final(self).wf(),
            final(self).translation == old(self).translation,
            final(self).allocator == old(self).allocator,
            match r {
                Ok(()) => {
                    &&& virt_start % SIZE_2MIB == 0 && phys_start % SIZE_2MIB == 0
                    &&& reached(old(self).ts(), virt_start, 2) is Some
                    &&& de_valid(path_entry(old(self).ts(), virt_start, 2))
                    &&& !de_table(path_entry(old(self).ts(), virt_start, 2))
                    &&& de_block_out_l2(path_entry(old(self).ts(), virt_start, 2)) == phys_start
                    &&& forall|va: u64|
                        same_2mib_region(va, virt_start) ==> lookup(final(self).ts(), va) is None
                    &&& forall|va: u64|
                        !same_2mib_region(va, virt_start) ==> lookup(final(self).ts(), va)
                            == lookup(old(self).ts(), va)
                },
                Err(AddressSpaceError::Misaligned) => {
                    &&& *final(self) == *old(self)
                    &&& !(virt_start % SIZE_2MIB == 0 && phys_start % SIZE_2MIB == 0)
                },
                Err(AddressSpaceError::GranuleUnsupported) => {
                    &&& *final(self) == *old(self)
                    &&& virt_start % SIZE_2MIB == 0 && phys_start % SIZE_2MIB == 0
                    &&& old(self).region_granule_mismatch_2m(virt_start)
                },
                Err(AddressSpaceError::TranslationNotFound) => {
                    &&& *final(self) == *old(self)
                    &&& virt_start % SIZE_2MIB == 0 && phys_start % SIZE_2MIB == 0
                    &&& !old(self).region_granule_mismatch_2m(virt_start)
                    &&& !(reached(old(self).ts(), virt_start, 2) is Some && de_valid(
                        path_entry(old(self).ts(), virt_start, 2),
                    ) && !de_table(path_entry(old(self).ts(), virt_start, 2)) && de_block_out_l2(
                        path_entry(old(self).ts(), virt_start, 2),
                    ) == phys_start)
                },
                _ => false,
            },
    {
        if virt_start % SIZE_2MIB != 0 || phys_start % SIZE_2MIB != 0 {
            return Err(AddressSpaceError::Misaligned);
        }
        let ghost ts = self.ts();
        proof {
            lemma_index_bounds(virt_start);
            crate::descriptor::lemma_zero_descriptor();
            assert(reached(ts, virt_start, 0) == Some(0int));
            assert(table_frame_wf(ts[0]));
        }
        let l0i = level0_index(virt_start);
        let d0 = self.tables[0].entries[l0i as usize];
        proof {
            assert(d0 == path_entry(ts, virt_start, 0));
            assert(spec_entry_wf(ts, 0, d0));
        }
        if !descriptor_is_valid(d0) {
            return Err(AddressSpaceError::TranslationNotFound);
        }
        let j1 = match self.find_table(descriptor_next_table(d0)) {
            Some(j) => j,
            None => {
                proof {
                    let p = de_next_table(d0);
                    let jx = choose|jx: int|
                        0 <= jx < ts.len() && (#[trigger] ts[jx]).phys == p && ts[jx].level@ == 1;
                    assert(ts[jx].phys == p);
                    assert(false);
                }
                return Err(AddressSpaceError::TranslationNotFound);
            },
        };
        proof {
            assert(reached(ts, virt_start, 1) == Some(j1 as int));
            lemma_reached_level(ts, virt_start, 1);
            assert(table_frame_wf(ts[j1 as int]));
        }
        let l1i = level1_index(virt_start);
        let d1 = self.tables[j1].entries[l1i as usize];
        proof {
            assert(d1 == path_entry(ts, virt_start, 1));
            assert(spec_entry_wf(ts, 1, d1));
        }
        if !descriptor_is_valid(d1) {
            return Err(AddressSpaceError::TranslationNotFound);
        }
        if !descriptor_is_table(d1) {
            // A 1GiB block covers the region; it cannot be taken apart.
            return Err(AddressSpaceError::GranuleUnsupported);
        }
        let j2 = match self.find_table(descriptor_next_table(d1)) {
            Some(j) => j,
            None => {
                proof {
                    let p = de_next_table(d1);
                    let jx = choose|jx: int|
                        0 <= jx < ts.len() && (#[trigger] ts[jx]).phys == p && ts[jx].level@ == 2;
                    assert(ts[jx].phys == p);
                    assert(false);
                }
                return Err(AddressSpaceError::TranslationNotFound);
            },
        };
        proof {
            assert(reached(ts, virt_start, 2) == Some(j2 as int));
            lemma_reached_level(ts, virt_start, 2);
            assert(table_frame_wf(ts[j2 as int]));
        }
        let l2i = level2_index(virt_start);
        let d2 = self.tables[j2].entries[l2i as usize];
        proof {
            assert(d2 == path_entry(ts, virt_start, 2));
            assert(spec_entry_wf(ts, 2, d2));
        }
        if !descriptor_is_valid(d2) {
            return Err(AddressSpaceError::TranslationNotFound);
        }
        if descriptor_is_table(d2) {
            return Err(AddressSpaceError::GranuleUnsupported);
        }
        if descriptor_block_out_l2(d2) != phys_start {
            return Err(AddressSpaceError::TranslationNotFound);
        }
        self.write_terminal(j2, l2i, 0, Ghost(virt_start), Ghost(2));
        proof {
            let ts2 = self.ts();
            crate::descriptor::lemma_zero_descriptor();
            assert forall|va: u64| same_2mib_region(va, virt_start) implies lookup(ts2, va)
                is None by {
                lemma_index_bounds(va);
                assert(same_indices_to(va, virt_start, 2)) by {
                    assert forall|l2: int| 0 <= l2 <= 2 implies level_index(va, l2)
                        == level_index(virt_start, l2) by {}
                }
                assert(reached(ts2, va, 2) == Some(j2 as int) && path_entry(ts2, va, 2) == 0);
                assert(reached(ts2, va, 1) == reached(ts, va, 1));
            }
            assert forall|va: u64| !same_2mib_region(va, virt_start) implies lookup(ts2, va)
                == lookup(old(self).ts(), va) by {
                assert(!same_indices_to(va, virt_start, 2)) by {
                    if same_indices_to(va, virt_start, 2) {
                        assert(level_index(va, 0) == level_index(virt_start, 0));
                        assert(level_index(va, 1) == level_index(virt_start, 1));
                        assert(level_index(va, 2) == level_index(virt_start, 2));
                        assert(same_2mib_region(va, virt_start));
                    }
                }
            }
        }
        Ok(())
    }

    /// Removes the 4KiB page mapping `virt_start` to `phys_start`, as
    /// `unmap_1gib_page` does for its granule.
    #[verifier::rlimit(100)]
    pub fn unmap_4kib_page(&mut self, virt_start: u64, phys_start: u64) -> (r: Result<
        (),
        AddressSpaceError,
    >)
        requires
            old(self).wf(),
        ensures
            final(self).wf(),
            final(self).translation == old(self).translation,
            final(self).allocator == old(self).allocator,
            match r {
                Ok(()) => {
                    &&& virt_start % SIZE_4KIB == 0 && phys_start % SIZE_4KIB == 0
                    &&& reached(old(self).ts(), virt_start, 3) is Some
                    &&& de_valid(path_entry(old(self).ts(), virt_start, 3))
                    &&& de_page_out(path_entry(old(self).ts(), virt_start, 3)) == phys_start
                    &&& forall|va: u64|
                        same_page(va, virt_start) ==> lookup(final(self).ts(), va) is None
                    &&& forall|va: u64|
                        !same_page(va, virt_start) ==> lookup(final(self).ts(), va) == lookup(
                            old(self).ts(),
                            va,
                        )
                },
                Err(AddressSpaceError::Misaligned) => {
                    &&& *final(self) == *old(self)
                    &&& !(virt_start % SIZE_4KIB == 0 && phys_start % SIZE_4KIB == 0)
                },
                Err(AddressSpaceError::GranuleUnsupported) => {
                    &&& *final(self) == *old(self)
                    &&& virt_start % SIZE_4KIB == 0 && phys_start % SIZE_4KIB == 0
                    &&& old(self).region_granule_mismatch_4k(virt_start)
                },
                Err(AddressSpaceError::TranslationNotFound) => {
                    &&& *final(self) == *old(self)
                    &&& virt_start % SIZE_4KIB == 0 && phys_start % SIZE_4KIB == 0
                    &&& !old(self).region_granule_mismatch_4k(virt_start)
                    &&& !(reached(old(self).ts(), virt_start, 3) is Some && de_valid(
                        path_entry(old(self).ts(), virt_start, 3),
                    ) && de_page_out(path_entry(old(self).ts(), virt_start, 3)) == phys_start)
                },
                _ => false,
            },
    {
        if virt_start % SIZE_4KIB != 0 || phys_start % SIZE_4KIB != 0 {
            return Err(AddressSpaceError::Misaligned);
        }
        let ghost ts = self.ts();
        proof {
            lemma_index_bounds(virt_start);
            crate::descriptor::lemma_zero_descriptor();
            assert(reached(ts, virt_start, 0) == Some(0int));
            assert(table_frame_wf(ts[0]));
        }
        let l0i = level0_index(virt_start);
        let d0 = self.tables[0].entries[l0i as usize];
        proof {
            assert(d0 == path_entry(ts, virt_start, 0));
            assert(spec_entry_wf(ts, 0, d0));
        }
        if !descriptor_is_valid(d0) {
            return Err(AddressSpaceError::TranslationNotFound);
        }
        let j1 = match self.find_table(descriptor_next_table(d0)) {
            Some(j) => j,
            None => {
                proof {
                    let p = de_next_table(d0);
                    let jx = choose|jx: int|
                        0 <= jx < ts.len() && (#[trigger] ts[jx]).phys == p && ts[jx].level@ == 1;
                    assert(ts[jx].phys == p);
                    assert(false);
                }
                return Err(AddressSpaceError::TranslationNotFound);
            },
        };
        proof {
            assert(reached(ts, virt_start, 1) == Some(j1 as int));
            lemma_reached_level(ts, virt_start, 1);
            assert(table_frame_wf(ts[j1 as int]));
        }
        let l1i = level1_index(virt_start);
        let d1 = self.tables[j1].entries[l1i as usize];
        proof {
            assert(d1 == path_entry(ts, virt_start, 1));
            assert(spec_entry_wf(ts, 1, d1));
        }
        if !descriptor_is_valid(d1) {
            return Err(AddressSpaceError::TranslationNotFound);
        }
        if !descriptor_is_table(d1) {
            return Err(AddressSpaceError::GranuleUnsupported);
        }
        let j2 = match self.find_table(descriptor_next_table(d1)) {
            Some(j) => j,
            None => {
                proof {
                    let p = de_next_table(d1);
                    let jx = choose|jx: int|
                        0 <= jx < ts.len() && (#[trigger] ts[jx]).phys == p && ts[jx].level@ == 2;
                    assert(ts[jx].phys == p);
                    assert(false);
                }
                return Err(AddressSpaceError::TranslationNotFound);
            },
        };
        proof {
            assert(reached(ts, virt_start, 2) == Some(j2 as int));
            lemma_reached_level(ts, virt_start, 2);
            assert(table_frame_wf(ts[j2 as int]));
        }
        let l2i = level2_index(virt_start);
        let d2 = self.tables[j2].entries[l2i as usize];
        proof {
            assert(d2 == path_entry(ts, virt_start, 2));
            assert(spec_entry_wf(ts, 2, d2));
        }
        if !descriptor_is_valid(d2) {
            return Err(AddressSpaceError::TranslationNotFound);
        }
        if !descriptor_is_table(d2) {
            return Err(AddressSpaceError::GranuleUnsupported);
        }
        let j3 = match self.find_table(descriptor_next_table(d2)) {
            Some(j) => j,
            None => {
                proof {
                    let p = de_next_table(d2);
                    let jx = choose|jx: int|
                        0 <= jx < ts.len() && (#[trigger] ts[jx]).phys == p && ts[jx].level@ == 3;
                    assert(ts[jx].phys == p);
                    assert(false);
                }
                return Err(AddressSpaceError::TranslationNotFound);
            },
        };
        proof {
            assert(reached(ts, virt_start, 3) == Some(j3 as int));
            lemma_reached_level(ts, virt_start, 3);
            assert(table_frame_wf(ts[j3 as int]));
        }
        let l3i = level3_index(virt_start);
        let d3 = self.tables[j3].entries[l3i as usize];
        proof {
            assert(d3 == path_entry(ts, virt_start, 3));
            assert(spec_entry_wf(ts, 3, d3));
        }
        if !descriptor_is_valid(d3) {
            return Err(AddressSpaceError::TranslationNotFound);
        }
        if descriptor_page_out(d3) != phys_start {
            return Err(AddressSpaceError::TranslationNotFound);
        }
        self.write_terminal(j3, l3i, 0, Ghost(virt_start), Ghost(3));
        proof {
            let ts2 = self.ts();
            crate::descriptor::lemma_zero_descriptor();
            assert forall|va: u64| same_page(va, virt_start) implies lookup(ts2, va) is None by {
                lemma_index_bounds(va);
                assert(same_indices_to(va, virt_start, 3)) by {
                    assert forall|l2: int| 0 <= l2 <= 3 implies level_index(va, l2)
                        == level_index(virt_start, l2) by {}
                }
                assert(reached(ts2, va, 3) == Some(j3 as int) && path_entry(ts2, va, 3) == 0);
                assert(reached(ts2, va, 1) == reached(ts, va, 1));
                assert(reached(ts2, va, 2) == reached(ts, va, 2));
            }
            assert forall|va: u64| !same_page(va, virt_start) implies lookup(ts2, va) == lookup(
                old(self).ts(),
                va,
            ) by {
                assert(!same_indices_to(va, virt_start, 3)) by {
                    if same_indices_to(va, virt_start, 3) {
                        assert(level_index(va, 0) == level_index(virt_start, 0));
                        assert(level_index(va, 1) == level_index(virt_start, 1));
                        assert(level_index(va, 2) == level_index(virt_start, 2));
                        assert(level_index(va, 3) == level_index(virt_start, 3));
                        assert(same_page(va, virt_start));
                    }
                }
            }
        }
        Ok(())
    }
}

/// Maps `[virt_start, virt_start + size)` to `[phys_start, phys_start
/// + size)`, selecting at each step the largest block granule — 1GiB,
/// then 2MiB, then 4KiB — whose alignment and remaining span allow it,
/// falling through to finer granules at unaligned edges.
impl PageTable {
    #[verifier::rlimit(100)]
    pub fn map_range(
        &mut self,
        virt_start: u64,
        phys_start: u64,
        size: u64,
        attr: MemoryAttributes,
    ) -> (r: Result<(), AddressSpaceError>)
        requires
            old(self).wf(),
            phys_start + size <= PHYS_LIMIT,
            virt_start + size <= u64::MAX,
            size <= 0x7FFF_FFFF_FFFF,
        ensures
            final(self).wf(),
            final(self).translation == old(self).translation,
            final(self).allocator.spec_start() == old(self).allocator.spec_start(),
            final(self).allocator.spec_end() == old(self).allocator.spec_end(),
            final(self).allocator.spec_page_size() == old(self).allocator.spec_page_size(),
            match r {
                Ok(()) => {
                    &&& virt_start % SIZE_4KIB == 0
                    &&& phys_start % SIZE_4KIB == 0
                    &&& size % SIZE_4KIB == 0
                    &&& forall|va: u64|
                        virt_start <= va < virt_start + size ==> lookup(final(self).ts(), va)
                            == Some((phys_start + (va - virt_start)) as u64)
                    &&& forall|va: u64|
                        (forall|w: u64|
                            virt_start <= w < virt_start + size ==> !(#[trigger] same_page(
                                va,
                                w,
                            ))) ==> lookup(final(self).ts(), va) == lookup(old(self).ts(), va)
                },
                Err(AddressSpaceError::Misaligned) => {
                    &&& *final(self) == *old(self)
                    &&& !(virt_start % SIZE_4KIB == 0 && phys_start % SIZE_4KIB == 0 && size
                        % SIZE_4KIB == 0)
                },
                Err(AddressSpaceError::AlreadyMapped) => {
                    &&& virt_start % SIZE_4KIB == 0 && phys_start % SIZE_4KIB == 0 && size
                        % SIZE_4KIB == 0
                    &&& exists|w: u64|
                        #![trigger final(self).l1_slot_free(w)]
                        virt_start <= w < virt_start + size && (!final(self).l1_slot_free(w)
                            || final(self).path_blocked_2m(w) || final(self).path_blocked_4k(w))
                },
                Err(AddressSpaceError::AllocationExhausted) => {
                    &&& virt_start % SIZE_4KIB == 0 && phys_start % SIZE_4KIB == 0 && size
                        % SIZE_4KIB == 0
                    &&& final(self).allocator.spec_next() == final(self).allocator.spec_end()
                },
                _ => false,
            },
            (virt_start % SIZE_4KIB == 0 && phys_start % SIZE_4KIB == 0 && size % SIZE_4KIB == 0
                && old(self).range_clear(virt_start, size)) ==> r is Ok,
    {
        if virt_start % SIZE_4KIB != 0 || phys_start % SIZE_4KIB != 0 || size % SIZE_4KIB != 0 {
            return Err(AddressSpaceError::Misaligned);
        }
        let ghost owed = old(self).range_clear(virt_start, size);
        proof {
            if owed {
                assert forall|w: u64|
                    virt_start <= w < virt_start + size implies #[trigger] self.l1_slot_free(
                    w,
                ) by {
                    assert(old(self).l1_slot_free(w));
                }
                assert forall|w: u64|
                    virt_start <= w < virt_start + size implies !(#[trigger] self.path_blocked_2m(
                        w,
                    )) by {
                    assert(old(self).l1_slot_free(w));
                }
                assert forall|w: u64|
                    virt_start <= w < virt_start + size implies !(#[trigger] self.path_blocked_4k(
                        w,
                    )) by {
                    assert(old(self).l1_slot_free(w));
                }
            }
        }
        let mut done: u64 = 0;
        while done < size
            invariant
                self.wf(),
                self.translation == old(self).translation,
                self.allocator.spec_start() == old(self).allocator.spec_start(),
                self.allocator.spec_end() == old(self).allocator.spec_end(),
                self.allocator.spec_page_size() == old(self).allocator.spec_page_size(),
                done % SIZE_4KIB == 0,
                done <= size,
                size % SIZE_4KIB == 0,
                virt_start % SIZE_4KIB == 0,
                phys_start % SIZE_4KIB == 0,
                virt_start + size <= u64::MAX,
                phys_start + size <= PHYS_LIMIT,
                size <= 0x7FFF_FFFF_FFFF,
                forall|va: u64|
                    virt_start <= va < virt_start + done ==> lookup(self.ts(), va) == Some(
                        (phys_start + (va - virt_start)) as u64,
                    ),
                forall|va: u64|
                    (forall|w: u64|
                        virt_start <= w < virt_start + done ==> !(#[trigger] same_page(va, w)))
                        ==> lookup(self.ts(), va) == lookup(old(self).ts(), va),
                owed == old(self).range_clear(virt_start, size),
                owed ==> forall|w: u64|
                    virt_start + done <= w < virt_start + size && w % SIZE_1GIB == 0
                        ==> #[trigger] self.l1_slot_free(w),
                owed ==> forall|w: u64|
                    virt_start + done <= w < virt_start + size && w % SIZE_2MIB == 0 ==> !(
                    #[trigger] self.path_blocked_2m(w)),
                owed ==> forall|w: u64|
                    virt_start + done <= w < virt_start + size && w % SIZE_4KIB == 0 ==> !(
                    #[trigger] self.path_blocked_4k(w)),
                owed ==> self.allocator.spec_next() <= old(self).allocator.spec_next() + 3
                    * done,
            decreases size - done,
        {
            let v = virt_start + done;
            let p = phys_start + done;
            let remaining = size - done;
            let g: u64;
            let ghost cur = *self;
            if v % SIZE_1GIB == 0 && p % SIZE_1GIB == 0 && remaining >= SIZE_1GIB {
                match self.map_1gib_page(v, p, attr) {
                    Ok(()) => {},
                    Err(e) => {
                        proof {
                            if e == AddressSpaceError::AlreadyMapped {
                                assert(!self.l1_slot_free(v));
                                assert(virt_start <= v < virt_start + size);
                                assert(exists|w: u64|
                                    #![trigger self.l1_slot_free(w)]
                                    virt_start <= w < virt_start + size && (!self.l1_slot_free(w)
                                        || self.path_blocked_2m(w) || self.path_blocked_4k(w)));
                                assert(!owed);
                            }
                            if e == AddressSpaceError::AllocationExhausted && owed {
                                vstd::arithmetic::div_mod::lemma_fundamental_div_mod(
                                    done as int,
                                    4096,
                                );
                                vstd::arithmetic::div_mod::lemma_fundamental_div_mod(
                                    size as int,
                                    4096,
                                );
                                assert(done as int + 4096 <= size as int) by (nonlinear_arith)
                                    requires
                                        done as int == 4096 * (done as int / 4096),
                                        size as int == 4096 * (size as int / 4096),
                                        (done as int) < size as int,
                                ;
                                assert(false);
                            }
                        }
                        return Err(e);
                    },
                }
                g = SIZE_1GIB;
                proof {
                    if owed {
                        assert forall|w: u64|
                            virt_start + done + g <= w < virt_start + size && w % SIZE_1GIB == 0
                            implies #[trigger] self.l1_slot_free(w) by {
                            crate::descriptor::lemma_1gib_distinct_above(v, w);
                            assert(!same_1gib_region(w, v));
                            assert(cur.l1_slot_free(w));
                            assert(self.l1_slot_free(w) == cur.l1_slot_free(w));
                        }
                        assert forall|w: u64|
                            virt_start + done + g <= w < virt_start + size && w % SIZE_2MIB == 0
                            implies !(#[trigger] self.path_blocked_2m(w)) by {
                            crate::descriptor::lemma_1gib_distinct_above(v, w);
                            assert(!same_1gib_region(w, v));
                            assert(!cur.path_blocked_2m(w));
                            assert(self.path_blocked_2m(w) == cur.path_blocked_2m(w));
                        }
                        assert forall|w: u64|
                            virt_start + done + g <= w < virt_start + size && w % SIZE_4KIB == 0
                            implies !(#[trigger] self.path_blocked_4k(w)) by {
                            crate::descriptor::lemma_1gib_distinct_above(v, w);
                            assert(!same_1gib_region(w, v));
                            assert(!cur.path_blocked_4k(w));
                            assert(self.path_blocked_4k(w) == cur.path_blocked_4k(w));
                        }
                    }
                }
                proof {
                    assert forall|va: u64| virt_start <= va < virt_start + done + g implies
                        lookup(self.ts(), va) == Some((phys_start + (va - virt_start)) as u64) by {
                        if va < v {
                            crate::descriptor::lemma_1gib_distinct_below(v, va);
                        } else {
                            crate::descriptor::lemma_1gib_range(v, va);
                        }
                    }
                    assert forall|va: u64|
                        (forall|w: u64|
                            virt_start <= w < virt_start + done + g ==> !(#[trigger] same_page(
                                va,
                                w,
                            ))) implies lookup(self.ts(), va) == lookup(old(self).ts(), va) by {
                        assert(!same_1gib_region(va, v)) by {
                            if same_1gib_region(va, v) {
                                crate::descriptor::lemma_1gib_region_contains_page(v, va);
                                assert(!same_page(va, ((v + off_1gib(va)) as u64)));
                            }
                        }
                        assert(lookup(self.ts(), va) == lookup(cur.ts(), va));
                        assert(lookup(cur.ts(), va) == lookup(old(self).ts(), va));
                    }
                    vstd::arithmetic::div_mod::lemma_mod_multiples_vanish(
                        0x40000,
                        done as int,
                        SIZE_4KIB as int,
                    );
                }
            } else if v % SIZE_2MIB == 0 && p % SIZE_2MIB == 0 && remaining >= SIZE_2MIB {
                match self.map_2mib_page(v, p, attr) {
                    Ok(()) => {},
                    Err(e) => {
                        proof {
                            if e == AddressSpaceError::AlreadyMapped {
                                assert(self.path_blocked_2m(v));
                                let ghost trig = self.l1_slot_free(v);
                                assert(virt_start <= v < virt_start + size);
                                assert(exists|w: u64|
                                    #![trigger self.l1_slot_free(w)]
                                    virt_start <= w < virt_start + size && (!self.l1_slot_free(w)
                                        || self.path_blocked_2m(w) || self.path_blocked_4k(w)));
                                assert(!owed);
                            }
                            if e == AddressSpaceError::AllocationExhausted && owed {
                                vstd::arithmetic::div_mod::lemma_fundamental_div_mod(
                                    done as int,
                                    4096,
                                );
                                vstd::arithmetic::div_mod::lemma_fundamental_div_mod(
                                    size as int,
                                    4096,
                                );
                                assert(done as int + 4096 <= size as int) by (nonlinear_arith)
                                    requires
                                        done as int == 4096 * (done as int / 4096),
                                        size as int == 4096 * (size as int / 4096),
                                        (done as int) < size as int,
                                ;
                                assert(false);
                            }
                        }
                        return Err(e);
                    },
                }
                g = SIZE_2MIB;
                proof {
                    if owed {
                        assert forall|w: u64|
                            virt_start + done + g <= w < virt_start + size && w % SIZE_1GIB == 0
                            implies #[trigger] self.l1_slot_free(w) by {
                            crate::descriptor::lemma_1gib_distinct_below(w, v);
                            assert(!same_1gib_region(w, v));
                            assert(cur.l1_slot_free(w));
                            assert(self.l1_slot_free(w) == cur.l1_slot_free(w));
                        }
                        assert forall|w: u64|
                            virt_start + done + g <= w < virt_start + size && w % SIZE_2MIB == 0
                            implies !(#[trigger] self.path_blocked_2m(w)) by {
                            crate::descriptor::lemma_2mib_distinct_above(v, w);
                            assert(!same_2mib_region(w, v));
                            assert(!cur.path_blocked_2m(w));
                            assert(self.path_blocked_2m(w) == cur.path_blocked_2m(w));
                        }
                        assert forall|w: u64|
                            virt_start + done + g <= w < virt_start + size && w % SIZE_4KIB == 0
                            implies !(#[trigger] self.path_blocked_4k(w)) by {
                            crate::descriptor::lemma_2mib_distinct_above(v, w);
                            assert(!same_2mib_region(w, v));
                            assert(!cur.path_blocked_4k(w));
                            assert(self.path_blocked_4k(w) == cur.path_blocked_4k(w));
                        }
                    }
                }
                proof {
                    assert forall|va: u64| virt_start <= va < virt_start + done + g implies
                        lookup(self.ts(), va) == Some((phys_start + (va - virt_start)) as u64) by {
                        if va < v {
                            crate::descriptor::lemma_2mib_distinct_below(v, va);
                        } else {
                            crate::descriptor::lemma_2mib_range(v, va);
                        }
                    }
                    assert forall|va: u64|
                        (forall|w: u64|
                            virt_start <= w < virt_start + done + g ==> !(#[trigger] same_page(
                                va,
                                w,
                            ))) implies lookup(self.ts(), va) == lookup(old(self).ts(), va) by {
                        assert(!same_2mib_region(va, v)) by {
                            if same_2mib_region(va, v) {
                                crate::descriptor::lemma_2mib_region_contains_page(v, va);
                                assert(!same_page(va, ((v + off_2mib(va)) as u64)));
                            }
                        }
                        assert(lookup(self.ts(), va) == lookup(cur.ts(), va));
                        assert(lookup(cur.ts(), va) == lookup(old(self).ts(), va));
                    }
                    vstd::arithmetic::div_mod::lemma_mod_multiples_vanish(
                        512,
                        done as int,
                        SIZE_4KIB as int,
                    );
                }
            } else {
                match self.map_4kib_page(v, p, attr) {
                    Ok(()) => {},
                    Err(e) => {
                        proof {
                            if e == AddressSpaceError::AlreadyMapped {
                                assert(self.path_blocked_4k(v));
                                let ghost trig = self.l1_slot_free(v);
                                assert(virt_start <= v < virt_start + size);
                                assert(exists|w: u64|
                                    #![trigger self.l1_slot_free(w)]
                                    virt_start <= w < virt_start + size && (!self.l1_slot_free(w)
                                        || self.path_blocked_2m(w) || self.path_blocked_4k(w)));
                                assert(!owed);
                            }
                            if e == AddressSpaceError::AllocationExhausted && owed {
                                vstd::arithmetic::div_mod::lemma_fundamental_div_mod(
                                    done as int,
                                    4096,
                                );
                                vstd::arithmetic::div_mod::lemma_fundamental_div_mod(
                                    size as int,
                                    4096,
                                );
                                assert(done as int + 4096 <= size as int) by (nonlinear_arith)
                                    requires
                                        done as int == 4096 * (done as int / 4096),
                                        size as int == 4096 * (size as int / 4096),
                                        (done as int) < size as int,
                                ;
                                assert(false);
                            }
                        }
                        return Err(e);
                    },
                }
                g = SIZE_4KIB;
                proof {
                    if owed {
                        assert forall|w: u64|
                            virt_start + done + g <= w < virt_start + size && w % SIZE_1GIB == 0
                            implies #[trigger] self.l1_slot_free(w) by {
                            crate::descriptor::lemma_1gib_distinct_below(w, v);
                            assert(!same_1gib_region(w, v));
                            assert(cur.l1_slot_free(w));
                            assert(self.l1_slot_free(w) == cur.l1_slot_free(w));
                        }
                        assert forall|w: u64|
                            virt_start + done + g <= w < virt_start + size && w % SIZE_2MIB == 0
                            implies !(#[trigger] self.path_blocked_2m(w)) by {
                            crate::descriptor::lemma_2mib_distinct_below(w, v);
                            assert(!same_2mib_region(w, v));
                            assert(!cur.path_blocked_2m(w));
                            assert(self.path_blocked_2m(w) == cur.path_blocked_2m(w));
                        }
                        assert forall|w: u64|
                            virt_start + done + g <= w < virt_start + size && w % SIZE_4KIB == 0
                            implies !(#[trigger] self.path_blocked_4k(w)) by {
                            crate::descriptor::lemma_page_distinct_above(v, w);
                            assert(!same_page(w, v));
                            assert(!cur.path_blocked_4k(w));
                            assert(self.path_blocked_4k(w) == cur.path_blocked_4k(w));
                        }
                    }
                }
                proof {
                    assert forall|va: u64| virt_start <= va < virt_start + done + g implies
                        lookup(self.ts(), va) == Some((phys_start + (va - virt_start)) as u64) by {
                        if va < v {
                            crate::descriptor::lemma_page_distinct_below(v, va);
                        } else {
                            crate::descriptor::lemma_page_range(v, va);
                        }
                    }
                    assert forall|va: u64|
                        (forall|w: u64|
                            virt_start <= w < virt_start + done + g ==> !(#[trigger] same_page(
                                va,
                                w,
                            ))) implies lookup(self.ts(), va) == lookup(old(self).ts(), va) by {
                        assert(!same_page(va, v));
                        assert(lookup(self.ts(), va) == lookup(cur.ts(), va));
                        assert(lookup(cur.ts(), va) == lookup(old(self).ts(), va));
                    }
                    vstd::arithmetic::div_mod::lemma_mod_multiples_vanish(
                        1,
                        done as int,
                        SIZE_4KIB as int,
                    );
                }
            }
            done = done + g;
        }
        Ok(())
    }

    /// Removes the mappings of `[virt_start, virt_start + size)` to
    /// `[phys_start, phys_start + size)`, selecting granules exactly as
    /// `map_range` does; a range mapped by `map_range` with the same
    /// arguments is thereby fully unmapped.
    #[verifier::rlimit(100)]
    pub fn unmap_range(&mut self, virt_start: u64, phys_start: u64, size: u64) -> (r: Result<
        (),
        AddressSpaceError,
    >)
        requires
            old(self).wf(),
            phys_start + size <= PHYS_LIMIT,
            virt_start + size <= u64::MAX,
            size <= 0x7FFF_FFFF_FFFF,
        ensures
            final(self).wf(),
            final(self).translation == old(self).translation,
            final(self).allocator == old(self).allocator,
            match r {
                Ok(()) => {
                    &&& virt_start % SIZE_4KIB == 0
                    &&& phys_start % SIZE_4KIB == 0
                    &&& size % SIZE_4KIB == 0
                    &&& forall|va: u64|
                        virt_start <= va < virt_start + size ==> lookup(final(self).ts(), va)
                            is None
                    &&& forall|va: u64|
                        (forall|w: u64|
                            virt_start <= w < virt_start + size ==> !(#[trigger] same_page(
                                va,
                                w,
                            ))) ==> lookup(final(self).ts(), va) == lookup(old(self).ts(), va)
                },
                Err(AddressSpaceError::Misaligned) => {
                    &&& *final(self) == *old(self)
                    &&& !(virt_start % SIZE_4KIB == 0 && phys_start % SIZE_4KIB == 0 && size
                        % SIZE_4KIB == 0)
                },
                Err(AddressSpaceError::GranuleUnsupported) => {
                    &&& virt_start % SIZE_4KIB == 0 && phys_start % SIZE_4KIB == 0 && size
                        % SIZE_4KIB == 0
                    &&& exists|w: u64|
                        #![trigger final(self).region_granule_mismatch_4k(w)]
                        virt_start <= w < virt_start + size
                            && (final(self).region_granule_mismatch_4k(w)
                            || final(self).region_granule_mismatch_2m(w)
                            || (reached(final(self).ts(), w, 1) is Some
                            && de_valid(path_entry(final(self).ts(), w, 1))
                            && de_table(path_entry(final(self).ts(), w, 1))))
                },
                Err(AddressSpaceError::TranslationNotFound) => {
                    &&& virt_start % SIZE_4KIB == 0 && phys_start % SIZE_4KIB == 0 && size
                        % SIZE_4KIB == 0
                    &&& exists|w: u64|
                        #![trigger lookup(final(self).ts(), w)]
                        virt_start <= w < virt_start + size && lookup(final(self).ts(), w) != Some(
                            (phys_start + (w - virt_start)) as u64,
                        )
                },
                _ => false,
            },
    {
        if virt_start % SIZE_4KIB != 0 || phys_start % SIZE_4KIB != 0 || size % SIZE_4KIB != 0 {
            return Err(AddressSpaceError::Misaligned);
        }
        let mut done: u64 = 0;
        while done < size
            invariant
                self.wf(),
                self.translation == old(self).translation,
                self.allocator == old(self).allocator,
                done % SIZE_4KIB == 0,
                done <= size,
                size % SIZE_4KIB == 0,
                virt_start % SIZE_4KIB == 0,
                phys_start % SIZE_4KIB == 0,
                virt_start + size <= u64::MAX,
                phys_start + size <= PHYS_LIMIT,
                size <= 0x7FFF_FFFF_FFFF,
                forall|va: u64|
                    virt_start <= va < virt_start + done ==> lookup(self.ts(), va) is None,
                forall|va: u64|
                    (forall|w: u64|
                        virt_start <= w < virt_start + done ==> !(#[trigger] same_page(va, w)))
                        ==> lookup(self.ts(), va) == lookup(old(self).ts(), va),
            decreases size - done,
        {
            let v = virt_start + done;
            let p = phys_start + done;
            let remaining = size - done;
            let ghost cur = *self;
            let g: u64;
            if v % SIZE_1GIB == 0 && p % SIZE_1GIB == 0 && remaining >= SIZE_1GIB {
                match self.unmap_1gib_page(v, p) {
                    Ok(()) => {},
                    Err(e) => {
                        proof {
                            let ts = self.ts();
                            let pe1 = path_entry(ts, v, 1);
                            crate::descriptor::lemma_zero_descriptor();
                            assert(virt_start <= v < virt_start + size);
                            if e == AddressSpaceError::GranuleUnsupported {
                                let ghost trig = self.region_granule_mismatch_4k(v);
                                assert(reached(ts, v, 1) is Some && de_valid(pe1) && de_table(
                                    pe1,
                                ));
                            }
                            if e == AddressSpaceError::TranslationNotFound {
                                assert(off_1gib(v) == 0) by (bit_vector)
                                    requires
                                        v % 0x4000_0000u64 == 0,
                                ;
                                if reached(ts, v, 1) is Some && de_valid(pe1) && !de_table(pe1) {
                                    assert(lookup(ts, v) == Some(
                                        (de_block_out_l1(pe1) + off_1gib(v)) as u64,
                                    ));
                                    assert(de_block_out_l1(pe1) != p);
                                } else {
                                    assert(lookup(ts, v) is None);
                                }
                                assert(lookup(ts, v) != Some((phys_start + (v - virt_start)) as u64));
                            }
                        }
                        return Err(e);
                    },
                }
                g = SIZE_1GIB;
                proof {
                    assert forall|va: u64| virt_start <= va < virt_start + done + g implies
                        lookup(self.ts(), va) is None by {
                        if va < v {
                            crate::descriptor::lemma_1gib_distinct_below(v, va);
                        } else {
                            crate::descriptor::lemma_1gib_range(v, va);
                        }
                    }
                    assert forall|va: u64|
                        (forall|w: u64|
                            virt_start <= w < virt_start + done + g ==> !(#[trigger] same_page(
                                va,
                                w,
                            ))) implies lookup(self.ts(), va) == lookup(old(self).ts(), va) by {
                        assert(!same_1gib_region(va, v)) by {
                            if same_1gib_region(va, v) {
                                crate::descriptor::lemma_1gib_region_contains_page(v, va);
                                assert(!same_page(va, ((v + off_1gib(va)) as u64)));
                            }
                        }
                        assert(lookup(self.ts(), va) == lookup(cur.ts(), va));
                        assert(lookup(cur.ts(), va) == lookup(old(self).ts(), va));
                    }
                    vstd::arithmetic::div_mod::lemma_mod_multiples_vanish(
                        0x40000,
                        done as int,
                        SIZE_4KIB as int,
                    );
                }
            } else if v % SIZE_2MIB == 0 && p % SIZE_2MIB == 0 && remaining >= SIZE_2MIB {
                match self.unmap_2mib_page(v, p) {
                    Ok(()) => {},
                    Err(e) => {
                        proof {
                            let ts = self.ts();
                            let pe1 = path_entry(ts, v, 1);
                            let pe2 = path_entry(ts, v, 2);
                            crate::descriptor::lemma_zero_descriptor();
                            assert(virt_start <= v < virt_start + size);
                            if e == AddressSpaceError::GranuleUnsupported {
                                let ghost trig = self.region_granule_mismatch_4k(v);
                                assert(self.region_granule_mismatch_2m(v));
                            }
                            if e == AddressSpaceError::TranslationNotFound {
                                assert(off_2mib(v) == 0) by (bit_vector)
                                    requires
                                        v % 0x20_0000u64 == 0,
                                ;
                                if reached(ts, v, 1) is Some && de_valid(pe1) && de_table(pe1) {
                                    if reached(ts, v, 2) is Some && de_valid(pe2) && !de_table(
                                        pe2,
                                    ) {
                                        assert(lookup(ts, v) == Some(
                                            (de_block_out_l2(pe2) + off_2mib(v)) as u64,
                                        ));
                                        assert(de_block_out_l2(pe2) != p);
                                    } else {
                                        assert(lookup(ts, v) is None);
                                    }
                                } else {
                                    assert(lookup(ts, v) is None);
                                }
                                assert(lookup(ts, v) != Some((phys_start + (v - virt_start)) as u64));
                            }
                        }
                        return Err(e);
                    },
                }
                g = SIZE_2MIB;
                proof {
                    assert forall|va: u64| virt_start <= va < virt_start + done + g implies
                        lookup(self.ts(), va) is None by {
                        if va < v {
                            crate::descriptor::lemma_2mib_distinct_below(v, va);
                        } else {
                            crate::descriptor::lemma_2mib_range(v, va);
                        }
                    }
                    assert forall|va: u64|
                        (forall|w: u64|
                            virt_start <= w < virt_start + done + g ==> !(#[trigger] same_page(
                                va,
                                w,
                            ))) implies lookup(self.ts(), va) == lookup(old(self).ts(), va) by {
                        assert(!same_2mib_region(va, v)) by {
                            if same_2mib_region(va, v) {
                                crate::descriptor::lemma_2mib_region_contains_page(v, va);
                                assert(!same_page(va, ((v + off_2mib(va)) as u64)));
                            }
                        }
                        assert(lookup(self.ts(), va) == lookup(cur.ts(), va));
                        assert(lookup(cur.ts(), va) == lookup(old(self).ts(), va));
                    }
                    vstd::arithmetic::div_mod::lemma_mod_multiples_vanish(
                        512,
                        done as int,
                        SIZE_4KIB as int,
                    );
                }
            } else {
                match self.unmap_4kib_page(v, p) {
                    Ok(()) => {},
                    Err(e) => {
                        proof {
                            let ts = self.ts();
                            let pe1 = path_entry(ts, v, 1);
                            let pe2 = path_entry(ts, v, 2);
                            let pe3 = path_entry(ts, v, 3);
                            crate::descriptor::lemma_zero_descriptor();
                            assert(virt_start <= v < virt_start + size);
                            if e == AddressSpaceError::GranuleUnsupported {
                                assert(self.region_granule_mismatch_4k(v));
                            }
                            if e == AddressSpaceError::TranslationNotFound {
                                assert(off_4kib(v) == 0) by (bit_vector)
                                    requires
                                        v % 4096u64 == 0,
                                ;
                                if reached(ts, v, 1) is Some && de_valid(pe1) && de_table(pe1) {
                                    if reached(ts, v, 2) is Some && de_valid(pe2) && de_table(
                                        pe2,
                                    ) {
                                        if reached(ts, v, 3) is Some && de_valid(pe3) {
                                            assert(de_table(pe3)) by {
                                                lemma_index_bounds(v);
                                                lemma_reached_level(ts, v, 3);
                                                let ti = reached(ts, v, 3)->Some_0;
                                                assert(table_frame_wf(ts[ti]));
                                                assert(spec_entry_wf(
                                                    ts,
                                                    ts[ti].level@,
                                                    ts[ti].entries@[level_index(v, 3) as int],
                                                ));
                                            }
                                            assert(lookup(ts, v) == Some(
                                                (de_page_out(pe3) + off_4kib(v)) as u64,
                                            ));
                                            assert(de_page_out(pe3) != p);
                                        } else {
                                            assert(lookup(ts, v) is None);
                                        }
                                    } else {
                                        assert(lookup(ts, v) is None);
                                    }
                                } else {
                                    assert(lookup(ts, v) is None);
                                }
                                assert(lookup(ts, v) != Some((phys_start + (v - virt_start)) as u64));
                            }
                        }
                        return Err(e);
                    },
                }
                g = SIZE_4KIB;
                proof {
                    assert forall|va: u64| virt_start <= va < virt_start + done + g implies
                        lookup(self.ts(), va) is None by {
                        if va < v {
                            crate::descriptor::lemma_page_distinct_below(v, va);
                        } else {
                            crate::descriptor::lemma_page_range(v, va);
                        }
                    }
                    assert forall|va: u64|
                        (forall|w: u64|
                            virt_start <= w < virt_start + done + g ==> !(#[trigger] same_page(
                                va,
                                w,
                            ))) implies lookup(self.ts(), va) == lookup(old(self).ts(), va) by {
                        assert(!same_page(va, v));
                        assert(lookup(self.ts(), va) == lookup(cur.ts(), va));
                        assert(lookup(cur.ts(), va) == lookup(old(self).ts(), va));
                    }
                    vstd::arithmetic::div_mod::lemma_mod_multiples_vanish(
                        1,
                        done as int,
                        SIZE_4KIB as int,
                    );
                }
            }
            done = done + g;
        }
        Ok(())
    }
}

/// Once a 1GiB region is mapped, every address within it — `virt + k`
/// for `k` below the region size — translates to the mapped physical
/// base plus `k`.
pub proof fn lemma_mapped_1gib_translates(ts: Seq<TableFrame>, virt: u64, phys: u64, k: u64)
    requires
        forall|va: u64|
            same_1gib_region(va, virt) ==> lookup(ts, va) == Some(((phys + off_1gib(va)) as u64)),
        virt % SIZE_1GIB == 0,
        phys % SIZE_1GIB == 0,
        phys < PHYS_LIMIT,
        k < SIZE_1GIB,
        virt + k <= u64::MAX,
    ensures
        lookup(ts, (virt + k) as u64) == Some(((phys + k) as u64)),
{
    crate::descriptor::lemma_1gib_range(virt, (virt + k) as u64);
}

/// Once a 4KiB page is mapped, every address within it — `virt + k` for
/// `k` below the page size — translates to the mapped frame plus `k`.
pub proof fn lemma_mapped_page_translates(ts: Seq<TableFrame>, virt: u64, phys: u64, k: u64)
    requires
        forall|va: u64|
            same_page(va, virt) ==> lookup(ts, va) == Some(((phys + off_4kib(va)) as u64)),
        virt % SIZE_4KIB == 0,
        phys % SIZE_4KIB == 0,
        phys < PHYS_LIMIT,
        k < SIZE_4KIB,
        virt + k <= u64::MAX,
    ensures
        lookup(ts, (virt + k) as u64) == Some(((phys + k) as u64)),
{
    crate::descriptor::lemma_page_range(virt, (virt + k) as u64);
}

/// An address that translates to something occupies its level-1 slot, so
/// mapping a 1GiB block over it must fail with `AlreadyMapped`.
pub proof fn lemma_mapped_blocks_remap_1gib(pt: PageTable, virt: u64)
    requires
        pt.wf(),
        lookup(pt.ts(), virt) is Some,
    ensures
        !pt.l1_slot_free(virt),
{
    crate::descriptor::lemma_zero_descriptor();
}

/// An address that translates to something has a terminal descriptor on
/// its walk, so mapping a 4KiB page over it must fail with
/// `AlreadyMapped`.
pub proof fn lemma_mapped_blocks_remap_4kib(pt: PageTable, virt: u64)
    requires
        pt.wf(),
        lookup(pt.ts(), virt) is Some,
    ensures
        pt.path_blocked_4k(virt),
{
    crate::descriptor::lemma_zero_descriptor();
}

/// A fresh, zeroed table frame's worth of descriptors.
fn new_table_entries() -> (r: Vec<u64>)
    ensures
        r.len() == 512,
        forall|k: int| 0 <= k < 512 ==> r@[k] == 0,
{
    let v: Vec<u64> = vec![0u64; 512];
    v
}

} // verus!
