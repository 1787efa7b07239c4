//! No transient overlap: a memory-slot table that follows the flat view
//! never meets an overlap when the view changes.
//!
//! An update hands the table first every range that goes and then every
//! range that comes. Where each slot in use holds the whole pages of a
//! range of the old view, the ranges that go free their slots before any
//! range that comes claims one, and what is left in use belongs to ranges
//! that the new view holds unchanged, which are apart from all that
//! comes.

use vstd::prelude::*;

use crate::address::AddressRange;
use crate::error::Error;
use crate::flat_view::{view_wf, FlatRangeView};
use crate::listener::{
    added, aligned, deleted, first_free, first_match, first_overlap, lemma_add_meets_no_overlap,
    lemma_aligned_within, released, slots_disjoint, takes_slot, ListenerReqType, MemSlot,
    SlotRequest,
};
use crate::region::RegionType;
use crate::topology::{
    add_region, come, delete_region, gone, holds_unchanged, lemma_passes_are_minimal,
    topology_pass, Request,
};

verus! {

/// Whether the slot `slot` holds the whole pages of the range `range`.
pub open spec fn slot_of(slot: MemSlot, range: FlatRangeView, page_size: u64) -> bool {
    takes_slot(range.owner.region_type) && aligned(range.addr_range, page_size) == Ok::<
        AddressRange,
        Error,
    >(slot.range())
}

/// Whether every slot in use holds the whole pages of a range of the view
/// `v`.
pub open spec fn mirrors(slots: Seq<MemSlot>, v: Seq<FlatRangeView>, page_size: u64) -> bool {
    forall|i: int|
        0 <= i < slots.len() && (#[trigger] slots[i]).size > 0 ==> exists|k: int|
            0 <= k < v.len() && slot_of(slots[i], #[trigger] v[k], page_size)
}

/// What the table answers to one region request, and the slots after it.
pub open spec fn served(slots: Seq<MemSlot>, as_id: u32, request: Request, page_size: u64) -> (
    Result<SlotRequest, Error>,
    Seq<MemSlot>,
) {
    match request.range {
        Some(range) => if request.req_type == ListenerReqType::AddRegion {
            added(slots, as_id, range, page_size)
        } else if request.req_type == ListenerReqType::DeleteRegion {
            deleted(slots, as_id, range, page_size)
        } else {
            (Ok(SlotRequest::Nothing), slots)
        },
        None => (Ok(SlotRequest::Nothing), slots),
    }
}

/// Whether the table meets an overlap as it is handed the requests
/// `requests` in order.
pub open spec fn meets_overlap(
    slots: Seq<MemSlot>,
    as_id: u32,
    requests: Seq<Request>,
    page_size: u64,
) -> bool
    decreases requests.len(),
{
    if requests.len() == 0 {
        false
    } else {
        let first = served(slots, as_id, requests[0], page_size);
        (first.0 matches Err(Error::KvmSlotOverlap(_, _))) || meets_overlap(
            first.1,
            as_id,
            requests.skip(1),
            page_size,
        )
    }
}

/// The slots after the table has been handed the requests `requests` in
/// order.
pub open spec fn slots_after(
    slots: Seq<MemSlot>,
    as_id: u32,
    requests: Seq<Request>,
    page_size: u64,
) -> Seq<MemSlot>
    decreases requests.len(),
{
    if requests.len() == 0 {
        slots
    } else {
        slots_after(
            served(slots, as_id, requests[0], page_size).1,
            as_id,
            requests.skip(1),
            page_size,
        )
    }
}

/// Handing the table two runs of requests one after the other is handing
/// it the first run and then the second.
proof fn lemma_served_in_turn(
    slots: Seq<MemSlot>,
    as_id: u32,
    a: Seq<Request>,
    b: Seq<Request>,
    page_size: u64,
)
    ensures
        slots_after(slots, as_id, a + b, page_size) == slots_after(
            slots_after(slots, as_id, a, page_size),
            as_id,
            b,
            page_size,
        ),
        meets_overlap(slots, as_id, a + b, page_size) == (meets_overlap(
            slots,
            as_id,
            a,
            page_size,
        ) || meets_overlap(slots_after(slots, as_id, a, page_size), as_id, b, page_size)),
    decreases a.len(),
{
    if a.len() == 0 {
        assert(a + b =~= b);
    } else {
        assert((a + b)[0] == a[0]);
        assert((a + b).skip(1) =~= a.skip(1) + b);
        lemma_served_in_turn(
            served(slots, as_id, a[0], page_size).1,
            as_id,
            a.skip(1),
            b,
            page_size,
        );
    }
}

/// Whether every slot in use holds the pages of an old range that is
/// still to be seen, from the `i`-th on, or of a new range that the old
/// view holds unchanged or that has come already, before the `j`-th.
spec fn accounted(
    slots: Seq<MemSlot>,
    old_v: Seq<FlatRangeView>,
    new_v: Seq<FlatRangeView>,
    i: int,
    j: int,
    page_size: u64,
) -> bool {
    forall|s: int|
        0 <= s < slots.len() && (#[trigger] slots[s]).size > 0 ==> (exists|k: int|
            i <= k < old_v.len() && slot_of(slots[s], #[trigger] old_v[k], page_size)) || (
        exists|k: int|
            0 <= k < new_v.len() && slot_of(slots[s], #[trigger] new_v[k], page_size) && (
            holds_unchanged(old_v, new_v[k]) || k < j))
}

/// Two slots in use that hold the same addresses are one slot.
proof fn lemma_one_slot_for_a_range(slots: Seq<MemSlot>, a: int, b: int)
    requires
        slots_disjoint(slots),
        0 <= a < slots.len(),
        0 <= b < slots.len(),
        slots[a].size > 0,
        slots[a].range() == slots[b].range(),
    ensures
        a == b,
{
    if a != b {
        assert(!slots[a].range().overlaps(slots[b].range()));
    }
}

/// The search for a slot finds one that holds just the bytes asked for.
proof fn lemma_first_match(slots: Seq<MemSlot>, addr: u64, size: u64, from: int)
    requires
        0 <= from,
    ensures
        match first_match(slots, addr, size, from) {
            Some(i) => from <= i < slots.len() && slots[i].guest_addr == addr && slots[i].size
                == size,
            None => forall|k: int|
                from <= k < slots.len() ==> !((#[trigger] slots[k]).guest_addr == addr
                    && slots[k].size == size),
        },
    decreases slots.len() - from,
{
    if from < slots.len() {
        lemma_first_match(slots, addr, size, from + 1);
    }
}

/// The search for a free slot finds a slot of size zero.
proof fn lemma_first_free(slots: Seq<MemSlot>, from: int)
    requires
        0 <= from,
    ensures
        first_free(slots, from) matches Some(i) ==> from <= i < slots.len()
            && slots[i].size == 0,
    decreases slots.len() - from,
{
    if from < slots.len() {
        lemma_first_free(slots, from + 1);
    }
}

/// The search for an overlap finds none only where no slot overlaps.
proof fn lemma_first_overlap(slots: Seq<MemSlot>, range: AddressRange, from: int)
    requires
        0 <= from,
    ensures
        first_overlap(slots, range, from) is None ==> forall|k: int|
            from <= k < slots.len() ==> !(#[trigger] slots[k]).range().overlaps(range),
    decreases slots.len() - from,
{
    if from < slots.len() {
        lemma_first_overlap(slots, range, from + 1);
    }
}

/// A range that goes leaves the slots apart, frees at most its own slot,
/// and changes no other.
proof fn lemma_deleted(slots: Seq<MemSlot>, as_id: u32, range: FlatRangeView, page_size: u64)
    requires
        slots_disjoint(slots),
    ensures
        ({
            let after = deleted(slots, as_id, range, page_size).1;
            &&& after.len() == slots.len()
            &&& slots_disjoint(after)
            &&& !(deleted(slots, as_id, range, page_size).0 matches Err(
                Error::KvmSlotOverlap(_, _),
            ))
            &&& forall|s: int|
                0 <= s < after.len() && (#[trigger] after[s]).size > 0 ==> after[s] == slots[s]
                    && !slot_of(slots[s], range, page_size)
        }),
{
    let after = deleted(slots, as_id, range, page_size).1;
    if takes_slot(range.owner.region_type) {
        match aligned(range.addr_range, page_size) {
            Ok(a) => {
                lemma_first_match(slots, a.base.0, a.size, 0);
                lemma_aligned_within(range.addr_range, page_size);
                match first_match(slots, a.base.0, a.size, 0) {
                    Some(i) => {
                        assert(after == released(slots, i));
                        assert forall|x: int, y: int|
                            0 <= x < after.len() && 0 <= y < after.len() && x != y implies !(
                        #[trigger] after[x]).range().overlaps((#[trigger] after[y]).range()) by {
                            assert(!slots[x].range().overlaps(slots[y].range()));
                        }
                        assert forall|s: int|
                            0 <= s < after.len() && (#[trigger] after[s]).size > 0 implies after[s]
                            == slots[s] && !slot_of(slots[s], range, page_size) by {
                            if slot_of(slots[s], range, page_size) {
                                assert(slots[s].range() == slots[i].range());
                                lemma_one_slot_for_a_range(slots, s, i);
                            }
                        }
                    },
                    None => {
                        assert forall|s: int|
                            0 <= s < after.len() && (#[trigger] after[s]).size > 0 implies !slot_of(
                            slots[s],
                            range,
                            page_size,
                        ) by {
                            if slot_of(slots[s], range, page_size) {
                                assert(slots[s].guest_addr == a.base.0 && slots[s].size == a.size);
                            }
                        }
                    },
                }
            },
            Err(e) => {},
        }
    }
}

/// A range that comes leaves the slots apart and changes at most one
/// slot, which then holds the pages of the range.
proof fn lemma_added(slots: Seq<MemSlot>, as_id: u32, range: FlatRangeView, page_size: u64)
    requires
        slots_disjoint(slots),
    ensures
        ({
            let after = added(slots, as_id, range, page_size).1;
            &&& after.len() == slots.len()
            &&& slots_disjoint(after)
            &&& forall|s: int|
                0 <= s < after.len() && (#[trigger] after[s]).size > 0 ==> after[s] == slots[s]
                    || slot_of(after[s], range, page_size)
        }),
{
    let after = added(slots, as_id, range, page_size).1;
    if range.owner.region_type == RegionType::RomDevice
        && !range.owner.rom_dev_romd {
        lemma_deleted(slots, as_id, range, page_size);
    } else if takes_slot(range.owner.region_type) {
        match aligned(range.addr_range, page_size) {
            Ok(a) => {
                lemma_first_overlap(slots, a, 0);
                lemma_first_free(slots, 0);
                if first_overlap(slots, a, 0) is None {
                    match first_free(slots, 0) {
                        Some(i) => {
                            assert(after[i].range() == a);
                            assert forall|x: int, y: int|
                                0 <= x < after.len() && 0 <= y < after.len() && x != y implies !(
                            #[trigger] after[x]).range().overlaps(
                                (#[trigger] after[y]).range(),
                            ) by {
                                if x == i {
                                    assert(!slots[y].range().overlaps(a));
                                } else if y == i {
                                    assert(!slots[x].range().overlaps(a));
                                } else {
                                    assert(!slots[x].range().overlaps(slots[y].range()));
                                }
                            }
                        },
                        None => {},
                    }
                }
            },
            Err(e) => {},
        }
    }
}

/// The ranges that go, from the `i`-th old range on, free their slots
/// without an overlap; what is then in use belongs to ranges that the new
/// view holds unchanged.
proof fn lemma_ranges_go(
    slots: Seq<MemSlot>,
    as_id: u32,
    old_v: Seq<FlatRangeView>,
    new_v: Seq<FlatRangeView>,
    i: int,
    page_size: u64,
)
    requires
        0 <= i <= old_v.len(),
        slots_disjoint(slots),
        accounted(slots, old_v, new_v, i, 0, page_size),
    ensures
        !meets_overlap(slots, as_id, gone(old_v, new_v, i), page_size),
        slots_disjoint(slots_after(slots, as_id, gone(old_v, new_v, i), page_size)),
        accounted(
            slots_after(slots, as_id, gone(old_v, new_v, i), page_size),
            old_v,
            new_v,
            old_v.len() as int,
            0,
            page_size,
        ),
    decreases old_v.len() - i,
{
    if i < old_v.len() {
        let o = old_v[i];
        let rest = gone(old_v, new_v, i + 1);
        if holds_unchanged(new_v, o) {
            // the range stays: its slot belongs to a range of the new view
            let k = choose|k: int| 0 <= k < new_v.len() && (#[trigger] new_v[k]).unchanged(o);
            assert(old_v[i].unchanged(new_v[k]));
            assert(holds_unchanged(old_v, new_v[k]));
            assert forall|s: int|
                0 <= s < slots.len() && (#[trigger] slots[s]).size > 0 implies (exists|k: int|
                i + 1 <= k < old_v.len() && slot_of(slots[s], #[trigger] old_v[k], page_size)) || (
            exists|k: int|
                0 <= k < new_v.len() && slot_of(slots[s], #[trigger] new_v[k], page_size) && (
                holds_unchanged(old_v, new_v[k]) || k < 0)) by {
                if slot_of(slots[s], old_v[i], page_size) {
                    assert(slot_of(slots[s], new_v[k], page_size));
                }
            }
            assert(gone(old_v, new_v, i) =~= rest);
            lemma_ranges_go(slots, as_id, old_v, new_v, i + 1, page_size);
        } else {
            let request = delete_region(o);
            let after = deleted(slots, as_id, o, page_size).1;
            lemma_deleted(slots, as_id, o, page_size);
            assert(served(slots, as_id, request, page_size) == deleted(slots, as_id, o, page_size));
            assert forall|s: int|
                0 <= s < after.len() && (#[trigger] after[s]).size > 0 implies (exists|k: int|
                i + 1 <= k < old_v.len() && slot_of(after[s], #[trigger] old_v[k], page_size)) || (
            exists|k: int|
                0 <= k < new_v.len() && slot_of(after[s], #[trigger] new_v[k], page_size) && (
                holds_unchanged(old_v, new_v[k]) || k < 0)) by {
                assert(after[s] == slots[s]);
                assert(slots[s].size > 0);
                assert(!slot_of(slots[s], old_v[i], page_size));
            }
            let all = gone(old_v, new_v, i);
            assert(all =~= seq![request] + rest);
            assert(all[0] == request);
            assert(all.skip(1) =~= rest);
            lemma_ranges_go(after, as_id, old_v, new_v, i + 1, page_size);
        }
    }
}

/// The ranges that come, from the `j`-th new range on, claim their slots
/// without an overlap: what is in use belongs to other ranges of the new
/// view, which are apart from each range that comes.
proof fn lemma_ranges_come(
    slots: Seq<MemSlot>,
    as_id: u32,
    old_v: Seq<FlatRangeView>,
    new_v: Seq<FlatRangeView>,
    j: int,
    page_size: u64,
)
    requires
        view_wf(new_v),
        0 <= j <= new_v.len(),
        slots_disjoint(slots),
        accounted(slots, old_v, new_v, old_v.len() as int, j, page_size),
    ensures
        !meets_overlap(slots, as_id, come(old_v, new_v, j), page_size),
        slots_disjoint(slots_after(slots, as_id, come(old_v, new_v, j), page_size)),
        mirrors(slots_after(slots, as_id, come(old_v, new_v, j), page_size), new_v, page_size),
    decreases new_v.len() - j,
{
    if j < new_v.len() {
        let n = new_v[j];
        let rest = come(old_v, new_v, j + 1);
        if holds_unchanged(old_v, n) {
            assert(come(old_v, new_v, j) =~= rest);
            lemma_ranges_come(slots, as_id, old_v, new_v, j + 1, page_size);
        } else {
            let request = add_region(n);
            let after = added(slots, as_id, n, page_size).1;
            lemma_added(slots, as_id, n, page_size);
            assert(served(slots, as_id, request, page_size) == added(slots, as_id, n, page_size));
            // every slot in use belongs to another range of the new view
            let others = new_v.remove(j);
            assert forall|s: int|
                0 <= s < slots.len() && (#[trigger] slots[s]).size > 0 implies exists|k: int|
                0 <= k < others.len() && (#[trigger] others[k]).addr_range.start()
                    <= slots[s].range().start() && slots[s].range().end()
                    <= others[k].addr_range.end() by {
                let k = choose|k: int|
                    0 <= k < new_v.len() && slot_of(slots[s], #[trigger] new_v[k], page_size) && (
                    holds_unchanged(old_v, new_v[k]) || k < j);
                assert(k != j);
                lemma_aligned_within(new_v[k].addr_range, page_size);
                let at = if k < j {
                    k
                } else {
                    k - 1
                };
                assert(others[at] == new_v[k]);
            }
            assert forall|k: int| 0 <= k < others.len() implies !(
            #[trigger] others[k]).addr_range.overlaps(n.addr_range) by {
                let from = if k < j {
                    k
                } else {
                    k + 1
                };
                assert(others[k] == new_v[from]);
                if from < j {
                    assert(new_v[from].addr_range.end() <= new_v[j].addr_range.start());
                } else {
                    assert(new_v[j].addr_range.end() <= new_v[from].addr_range.start());
                }
            }
            lemma_add_meets_no_overlap(slots, as_id, others, n, page_size);
            assert forall|s: int|
                0 <= s < after.len() && (#[trigger] after[s]).size > 0 implies (exists|k: int|
                old_v.len() <= k < old_v.len() && slot_of(after[s], #[trigger] old_v[k], page_size))
                || (exists|k: int|
                0 <= k < new_v.len() && slot_of(after[s], #[trigger] new_v[k], page_size) && (
                holds_unchanged(old_v, new_v[k]) || k < j + 1)) by {
                if after[s] == slots[s] {
                    let k = choose|k: int|
                        0 <= k < new_v.len() && slot_of(slots[s], #[trigger] new_v[k], page_size)
                            && (holds_unchanged(old_v, new_v[k]) || k < j);
                    assert(slot_of(after[s], new_v[k], page_size));
                } else {
                    assert(slot_of(after[s], new_v[j], page_size));
                }
            }
            let all = come(old_v, new_v, j);
            assert(all =~= seq![request] + rest);
            assert(all[0] == request);
            assert(all.skip(1) =~= rest);
            lemma_ranges_come(after, as_id, old_v, new_v, j + 1, page_size);
        }
    } else {
        assert forall|i: int|
            0 <= i < slots.len() && (#[trigger] slots[i]).size > 0 implies exists|k: int|
            0 <= k < new_v.len() && slot_of(slots[i], #[trigger] new_v[k], page_size) by {
            let k = choose|k: int|
                0 <= k < new_v.len() && slot_of(slots[i], #[trigger] new_v[k], page_size) && (
                holds_unchanged(old_v, new_v[k]) || k < j);
            assert(slot_of(slots[i], new_v[k], page_size));
        }
    }
}

/// No transient overlap: a table whose slots in use hold the whole pages
/// of ranges of the old view meets no overlap as it is handed the region
/// requests of an update, the ranges that go before the ranges that
/// come; after them its slots are apart and hold the whole pages of
/// ranges of the new view.
pub proof fn lemma_update_meets_no_overlap(
    slots: Seq<MemSlot>,
    as_id: u32,
    old_v: Seq<FlatRangeView>,
    new_v: Seq<FlatRangeView>,
    page_size: u64,
)
    requires
        view_wf(old_v),
        view_wf(new_v),
        slots_disjoint(slots),
        mirrors(slots, old_v, page_size),
    ensures
        ({
            let requests = topology_pass(old_v, new_v, 0, 0, false) + topology_pass(
                old_v,
                new_v,
                0,
                0,
                true,
            );
            &&& !meets_overlap(slots, as_id, requests, page_size)
            &&& slots_disjoint(slots_after(slots, as_id, requests, page_size))
            &&& mirrors(slots_after(slots, as_id, requests, page_size), new_v, page_size)
        }),
{
    lemma_passes_are_minimal(old_v, new_v);
    let going = gone(old_v, new_v, 0);
    let coming = come(old_v, new_v, 0);
    assert forall|s: int|
        0 <= s < slots.len() && (#[trigger] slots[s]).size > 0 implies (exists|k: int|
        0 <= k < old_v.len() && slot_of(slots[s], #[trigger] old_v[k], page_size)) || (exists|k: int|
        0 <= k < new_v.len() && slot_of(slots[s], #[trigger] new_v[k], page_size) && (
        holds_unchanged(old_v, new_v[k]) || k < 0)) by {
        let k = choose|k: int| 0 <= k < old_v.len() && slot_of(slots[s], #[trigger] old_v[k], page_size);
        assert(slot_of(slots[s], old_v[k], page_size));
    }
    lemma_ranges_go(slots, as_id, old_v, new_v, 0, page_size);
    let between = slots_after(slots, as_id, going, page_size);
    lemma_ranges_come(between, as_id, old_v, new_v, 0, page_size);
    lemma_served_in_turn(slots, as_id, going, coming, page_size);
}

} // verus!
