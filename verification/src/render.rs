//! What rendering a region tree means, and what holds of the result.
//!
//! A tree is rendered into a flat view region by region, children in
//! their stored order, which is descending priority. A terminal region is
//! laid under what is already there, so the region rendered first wins
//! every address that two regions both claim.

use vstd::prelude::*;

use crate::address::{AddressRange, GuestAddress};
use crate::error::Error;
use crate::flat_view::{lemma_paint_lookup, lemma_paint_wf, lookup, paint, view_wf, FlatRangeView};
use crate::region::{RegionType, RegionView};

verus! {

/// The addresses of `r` when its parent starts at `base`, cut down to
/// `clip`; an error when the region starts beyond the 64-bit space or
/// shares no address with `clip`.
pub open spec fn clipped(r: RegionView, base: int, clip: AddressRange) -> Result<
    AddressRange,
    Error,
> {
    let region_base = base + r.offset;
    if region_base > u64::MAX {
        Err(Error::Overflow(base as u64))
    } else {
        let range = AddressRange { base: GuestAddress(region_base as u64), size: r.size };
        match range.intersection(clip) {
            None => Err(Error::RegionOutOfRange(region_base as u64, clip.base.0, clip.size)),
            Some(both) => Ok(both),
        }
    }
}

/// The view `acc` after the tree `r`, whose parent starts at `base`, is
/// rendered into it within `clip`.
pub open spec fn render_region(
    r: RegionView,
    base: int,
    clip: AddressRange,
    acc: Seq<FlatRangeView>,
) -> Result<Seq<FlatRangeView>, Error>
    decreases r, r.subregions.len() + 1,
{
    match clipped(r, base, clip) {
        Err(e) => Err(e),
        Ok(both) => if r.region_type == RegionType::Container {
            render_children(r, 0, base + r.offset, both, acc)
        } else {
            Ok(paint(acc, r, base + r.offset, both.start(), both.end()))
        },
    }
}

/// The view `acc` after the children of `r` from the `i`-th on are
/// rendered into it, in order; the first child that fails decides the
/// error.
pub open spec fn render_children(
    r: RegionView,
    i: nat,
    region_base: int,
    clip: AddressRange,
    acc: Seq<FlatRangeView>,
) -> Result<Seq<FlatRangeView>, Error>
    decreases r, r.subregions.len() - i,
{
    if i >= r.subregions.len() {
        Ok(acc)
    } else {
        match render_region(r.subregions[i as int], region_base, clip, acc) {
            Err(e) => Err(e),
            Ok(next) => render_children(r, i + 1, region_base, clip, next),
        }
    }
}

/// The flat view of the tree `r` at `base` within `clip`.
pub open spec fn flat_view_of(r: RegionView, base: int, clip: AddressRange) -> Result<
    Seq<FlatRangeView>,
    Error,
> {
    if clip.end() > u64::MAX {
        Err(Error::Overflow(clip.base.0))
    } else {
        render_region(r, base, clip, Seq::empty())
    }
}

/// The terminal region of the tree `r` that claims the address `a` first,
/// with the guest address at which that region starts.
pub open spec fn owner_at(r: RegionView, base: int, clip: AddressRange, a: int) -> Option<
    (RegionView, int),
>
    decreases r, r.subregions.len() + 1,
{
    match clipped(r, base, clip) {
        Err(e) => None,
        Ok(both) => if r.region_type == RegionType::Container {
            owner_at_children(r, 0, base + r.offset, both, a)
        } else if both.contains(a) {
            Some((r, base + r.offset))
        } else {
            None
        },
    }
}

/// The first claim on the address `a` among the children of `r` from the
/// `i`-th on.
pub open spec fn owner_at_children(
    r: RegionView,
    i: nat,
    region_base: int,
    clip: AddressRange,
    a: int,
) -> Option<(RegionView, int)>
    decreases r, r.subregions.len() - i,
{
    if i >= r.subregions.len() {
        None
    } else {
        match owner_at(r.subregions[i as int], region_base, clip, a) {
            Some(o) => Some(o),
            None => owner_at_children(r, i + 1, region_base, clip, a),
        }
    }
}

/// The addresses of a terminal region, cut down to a range within the
/// 64-bit space, can be painted.
pub proof fn lemma_clipped_paintable(r: RegionView, base: int, clip: AddressRange)
    requires
        0 <= base,
        clip.end() <= u64::MAX,
        r.is_terminal(),
    ensures
        clipped(r, base, clip) matches Ok(both) ==> crate::flat_view::paintable(
            r,
            base + r.offset,
            both.start(),
            both.end(),
        ) && both.start() < both.end() && clip.start() <= both.start() && both.end()
            <= clip.end(),
{
}

/// What is left of a range within the 64-bit space lies within it too.
pub proof fn lemma_clipped_within(r: RegionView, base: int, clip: AddressRange)
    requires
        0 <= base,
        clip.end() <= u64::MAX,
    ensures
        clipped(r, base, clip) matches Ok(both) ==> both.end() <= u64::MAX && 0 <= base + r.offset
            <= u64::MAX,
{
}

/// Rendering keeps a view well formed: the ranges of the result are
/// sorted by address and no two of them share an address.
pub proof fn lemma_render_wf(
    r: RegionView,
    base: int,
    clip: AddressRange,
    acc: Seq<FlatRangeView>,
)
    requires
        view_wf(acc),
        0 <= base,
        clip.end() <= u64::MAX,
    ensures
        render_region(r, base, clip, acc) matches Ok(v) ==> view_wf(v),
    decreases r, r.subregions.len() + 1,
{
    lemma_clipped_within(r, base, clip);
    match clipped(r, base, clip) {
        Err(e) => {},
        Ok(both) => {
            if r.region_type == RegionType::Container {
                lemma_render_children_wf(r, 0, base + r.offset, both, acc);
            } else {
                lemma_clipped_paintable(r, base, clip);
                lemma_paint_wf(acc, r, base + r.offset, both.start(), both.end());
            }
        },
    }
}

/// Rendering a run of children keeps a view well formed.
pub proof fn lemma_render_children_wf(
    r: RegionView,
    i: nat,
    region_base: int,
    clip: AddressRange,
    acc: Seq<FlatRangeView>,
)
    requires
        view_wf(acc),
        0 <= region_base,
        clip.end() <= u64::MAX,
    ensures
        render_children(r, i, region_base, clip, acc) matches Ok(v) ==> view_wf(v),
    decreases r, r.subregions.len() - i,
{
    if i < r.subregions.len() {
        lemma_render_wf(r.subregions[i as int], region_base, clip, acc);
        match render_region(r.subregions[i as int], region_base, clip, acc) {
            Err(e) => {},
            Ok(next) => {
                lemma_render_children_wf(r, i + 1, region_base, clip, next);
            },
        }
    }
}

/// What the rendered view holds at the address `a`, given what the view
/// held before and which region of the tree claims `a` first.
pub open spec fn resolved(
    before: Option<FlatRangeView>,
    claim: Option<(RegionView, int)>,
    after: Option<FlatRangeView>,
    a: int,
) -> bool {
    match before {
        Some(e) => after == Some(e),
        None => match claim {
            Some((owner, region_base)) => after matches Some(e) && e.owner == owner
                && e.rom_dev_romd == owner.romd() && e.addr_range.contains(a) && e.region_base()
                == region_base,
            None => after is None,
        },
    }
}

/// The rendered view covers exactly the addresses that the view held
/// before or that a terminal region of the tree claims, and gives each
/// address to the first that claimed it: to the range that held it
/// before, else to the first terminal region in rendering order.
pub proof fn lemma_render_lookup(
    r: RegionView,
    base: int,
    clip: AddressRange,
    acc: Seq<FlatRangeView>,
    a: int,
)
    requires
        view_wf(acc),
        0 <= base,
        clip.end() <= u64::MAX,
    ensures
        render_region(r, base, clip, acc) matches Ok(v) ==> resolved(
            lookup(acc, a),
            owner_at(r, base, clip, a),
            lookup(v, a),
            a,
        ),
    decreases r, r.subregions.len() + 1,
{
    lemma_clipped_within(r, base, clip);
    match clipped(r, base, clip) {
        Err(e) => {},
        Ok(both) => {
            if r.region_type == RegionType::Container {
                lemma_render_children_lookup(r, 0, base + r.offset, both, acc, a);
            } else {
                lemma_clipped_paintable(r, base, clip);
                lemma_paint_lookup(acc, r, base + r.offset, both.start(), both.end(), a);
            }
        },
    }
}

/// The same for a run of children.
pub proof fn lemma_render_children_lookup(
    r: RegionView,
    i: nat,
    region_base: int,
    clip: AddressRange,
    acc: Seq<FlatRangeView>,
    a: int,
)
    requires
        view_wf(acc),
        0 <= region_base,
        clip.end() <= u64::MAX,
    ensures
        render_children(r, i, region_base, clip, acc) matches Ok(v) ==> resolved(
            lookup(acc, a),
            owner_at_children(r, i, region_base, clip, a),
            lookup(v, a),
            a,
        ),
    decreases r, r.subregions.len() - i,
{
    if i < r.subregions.len() {
        let child = r.subregions[i as int];
        lemma_render_lookup(child, region_base, clip, acc, a);
        lemma_render_wf(child, region_base, clip, acc);
        match render_region(child, region_base, clip, acc) {
            Err(e) => {},
            Ok(next) => {
                lemma_render_children_lookup(r, i + 1, region_base, clip, next, a);
            },
        }
    }
}

/// A rendered view is well formed, and holds an address exactly when a
/// terminal region of the tree claims it, for the first such region.
pub proof fn lemma_flat_view_of(r: RegionView, base: int, clip: AddressRange, a: int)
    requires
        0 <= base,
    ensures
        flat_view_of(r, base, clip) matches Ok(v) ==> view_wf(v) && resolved(
            None,
            owner_at(r, base, clip, a),
            lookup(v, a),
            a,
        ),
{
    if clip.end() <= u64::MAX {
        let empty = Seq::<FlatRangeView>::empty();
        lemma_render_wf(r, base, clip, empty);
        lemma_render_lookup(r, base, clip, empty, a);
    }
}

/// Priority shadowing: where two terminal children of one parent both
/// reach an address, the rendered view gives it to the one that stands
/// first among the children, in full and untouched by the other.
pub proof fn lemma_first_sibling_wins(
    parent: RegionView,
    base: int,
    clip: AddressRange,
    i: int,
    a: int,
)
    requires
        0 <= base,
        parent.region_type == RegionType::Container,
        0 <= i < parent.subregions.len(),
        parent.subregions[i].is_terminal(),
        clipped(parent, base, clip) matches Ok(both) && (clipped(
            parent.subregions[i],
            base + parent.offset,
            both,
        ) matches Ok(mine) && mine.contains(a)),
        forall|k: int|
            0 <= k < i ==> owner_at(#[trigger] parent.subregions[k], base + parent.offset, clipped(
                parent,
                base,
                clip,
            )->Ok_0, a) is None,
    ensures
        flat_view_of(parent, base, clip) matches Ok(v) ==> (lookup(v, a) matches Some(e)
            && e.owner == parent.subregions[i] && e.region_base() == base + parent.offset
            + parent.subregions[i].offset),
{
    lemma_flat_view_of(parent, base, clip, a);
    let both = clipped(parent, base, clip)->Ok_0;
    lemma_first_claim(parent, 0, i, base + parent.offset, both, a);
}

/// Among the children from the `from`-th on, the first that claims an
/// address is the claim of the run.
proof fn lemma_first_claim(
    r: RegionView,
    from: nat,
    i: int,
    region_base: int,
    clip: AddressRange,
    a: int,
)
    requires
        from <= i < r.subregions.len(),
        owner_at(r.subregions[i], region_base, clip, a) is Some,
        forall|k: int|
            from <= k < i ==> owner_at(#[trigger] r.subregions[k], region_base, clip, a) is None,
    ensures
        owner_at_children(r, from, region_base, clip, a) == owner_at(
            r.subregions[i],
            region_base,
            clip,
            a,
        ),
    decreases i - from,
{
    if from < i {
        assert(owner_at(r.subregions[from as int], region_base, clip, a) is None);
        lemma_first_claim(r, from + 1, i, region_base, clip, a);
    }
}

} // verus!
