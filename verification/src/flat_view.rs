//! The flat view: the region tree resolved into a sorted run of ranges
//! that do not overlap, each with the region that owns it.

use vstd::prelude::*;
use vstd::std_specs::cmp::PartialEqSpecImpl;

use crate::address::{AddressRange, GuestAddress};
use crate::region::{Region, RegionType, RegionView};

verus! {

/// A run of guest addresses that one terminal region owns.
#[derive(Debug)]
pub struct FlatRange {
    /// The addresses of the range.
    pub addr_range: AddressRange,
    /// The region that serves the range.
    pub owner: Region,
    /// Where in the region the range starts.
    pub offset_in_region: u64,
    /// The read-only mode of the owner when the range was made, for a ROM
    /// device.
    pub rom_dev_romd: Option<bool>,
}

/// A flat range as a mathematical value.
pub struct FlatRangeView {
    /// The addresses of the range.
    pub addr_range: AddressRange,
    /// The region that serves the range.
    pub owner: RegionView,
    /// Where in the region the range starts.
    pub offset_in_region: u64,
    /// The read-only mode recorded with the range.
    pub rom_dev_romd: Option<bool>,
}

impl FlatRangeView {
    /// The recorded read-only mode, taken as off where none is recorded.
    pub open spec fn romd_or_off(self) -> bool {
        match self.rom_dev_romd {
            Some(b) => b,
            None => false,
        }
    }

    /// Equality of flat ranges: the same start, the same owner by identity
    /// and type, the same offset in the owner and the same read-only mode.
    /// The length takes no part in it.
    pub open spec fn same_as(self, other: FlatRangeView) -> bool {
        &&& self.addr_range.base == other.addr_range.base
        &&& self.owner.region_type == other.owner.region_type
        &&& self.romd_or_off() == other.romd_or_off()
        &&& self.owner.id == other.owner.id
        &&& self.offset_in_region == other.offset_in_region
    }

    /// Whether the two ranges are one entry for the purpose of a topology
    /// change: equal, and of the same length.
    pub open spec fn unchanged(self, other: FlatRangeView) -> bool {
        self.addr_range == other.addr_range && self.same_as(other)
    }

    /// What holds of every range of a flat view: it is not empty, ends
    /// within the 64-bit space, lies within its owner, which starts at or
    /// above address zero, and its owner is a terminal region whose mode
    /// it records.
    pub open spec fn range_wf(self) -> bool {
        &&& self.addr_range.size > 0
        &&& self.addr_range.end() <= u64::MAX
        &&& self.owner.is_terminal()
        &&& self.offset_in_region + self.addr_range.size <= self.owner.size
        &&& self.offset_in_region <= self.addr_range.base.0
        &&& self.rom_dev_romd == self.owner.romd()
    }

    /// Guest address at which the owner of the range starts.
    pub open spec fn region_base(self) -> int {
        self.addr_range.start() - self.offset_in_region
    }
}

impl View for FlatRange {
    type V = FlatRangeView;

    open spec fn view(&self) -> FlatRangeView {
        FlatRangeView {
            addr_range: self.addr_range,
            owner: self.owner@,
            offset_in_region: self.offset_in_region,
            rom_dev_romd: self.rom_dev_romd,
        }
    }
}

impl FlatRange {
    /// Whether the range is one that a flat view can hold: not empty,
    /// within the 64-bit space and within its owner, which is a terminal
    /// region whose mode the range records.
    pub fn is_well_formed(&self) -> (r: bool)
        ensures
            r == self@.range_wf(),
    {
        if self.addr_range.size == 0 {
            return false;
        }
        if self.addr_range.base.0.checked_add(self.addr_range.size).is_none() {
            return false;
        }
        if self.owner.region_type() == RegionType::Container {
            return false;
        }
        match self.offset_in_region.checked_add(self.addr_range.size) {
            Some(end) => {
                if end > self.owner.size() {
                    return false;
                }
            },
            None => {
                return false;
            },
        }
        if self.offset_in_region > self.addr_range.base.0 {
            return false;
        }
        match (self.rom_dev_romd, self.owner.get_rom_device_romd()) {
            (Some(a), Some(b)) => a == b,
            (None, None) => true,
            _ => false,
        }
    }
}

impl Clone for FlatRange {
    fn clone(&self) -> (r: FlatRange)
        ensures
            r@ == self@,
    {
        FlatRange {
            addr_range: self.addr_range,
            owner: self.owner.clone(),
            offset_in_region: self.offset_in_region,
            rom_dev_romd: self.rom_dev_romd,
        }
    }
}

impl PartialEq for FlatRange {
    fn eq(&self, other: &FlatRange) -> (r: bool) {
        let own: bool = match self.rom_dev_romd {
            Some(b) => b,
            None => false,
        };
        let others: bool = match other.rom_dev_romd {
            Some(b) => b,
            None => false,
        };
        self.addr_range.base.0 == other.addr_range.base.0 && self.owner.region_type()
            == other.owner.region_type() && own == others && self.owner.id() == other.owner.id()
            && self.offset_in_region == other.offset_in_region
    }
}

impl PartialEqSpecImpl for FlatRange {
    open spec fn obeys_eq_spec() -> bool {
        true
    }

    open spec fn eq_spec(&self, other: &FlatRange) -> bool {
        self@.same_as(other@)
    }
}

impl Eq for FlatRange {

}

/// The flat ranges of an address space, in ascending order of address.
#[derive(Debug)]
pub struct FlatView(pub Vec<FlatRange>);

impl View for FlatView {
    type V = Seq<FlatRangeView>;

    open spec fn view(&self) -> Seq<FlatRangeView> {
        self.0@.map_values(|fr: FlatRange| fr@)
    }
}

impl FlatView {
    /// Whether the view is well formed: every range is, and each range
    /// ends where the next starts or before it.
    pub fn is_well_formed(&self) -> (r: bool)
        ensures
            r == view_wf(self@),
    {
        let mut i: usize = 0;
        while i < self.0.len()
            invariant
                i <= self.0.len(),
                forall|k: int| 0 <= k < i ==> (#[trigger] self@[k]).range_wf(),
                forall|a: int, b: int|
                    0 <= a < b < i ==> (#[trigger] self@[a]).addr_range.end() <= (
                    #[trigger] self@[b]).addr_range.start(),
            decreases self.0.len() - i,
        {
            proof {
                assert(self@[i as int] == self.0[i as int]@);
            }
            if !self.0[i].is_well_formed() {
                return false;
            }
            if i > 0 {
                proof {
                    assert(self@[i - 1] == self.0[i - 1]@);
                    assert(self@[i - 1].range_wf());
                }
                let before = &self.0[i - 1].addr_range;
                if before.base.0 + before.size > self.0[i].addr_range.base.0 {
                    proof {
                        assert(!(self@[i - 1].addr_range.end() <= self@[i as int].addr_range.start()));
                    }
                    return false;
                }
                proof {
                    assert forall|a: int, b: int| 0 <= a < b < i + 1 implies (
                    #[trigger] self@[a]).addr_range.end() <= (
                    #[trigger] self@[b]).addr_range.start() by {
                        if b == i && a < i - 1 {
                            assert(self@[a].addr_range.end() <= self@[i - 1].addr_range.start());
                        }
                    }
                }
            }
            i += 1;
        }
        true
    }
}

impl Default for FlatView {
    fn default() -> (r: FlatView)
        ensures
            r@ == Seq::<FlatRangeView>::empty(),
    {
        let r = FlatView(Vec::new());
        proof {
            assert(r@ =~= Seq::<FlatRangeView>::empty());
        }
        r
    }
}

impl Clone for FlatView {
    fn clone(&self) -> (r: FlatView)
        ensures
            r@ == self@,
    {
        let mut out: Vec<FlatRange> = Vec::new();
        let mut i: usize = 0;
        while i < self.0.len()
            invariant
                i <= self.0.len(),
                out.len() == i,
                forall|k: int| 0 <= k < i ==> (#[trigger] out[k])@ == self.0[k]@,
            decreases self.0.len() - i,
        {
            out.push(self.0[i].clone());
            i += 1;
        }
        let r = FlatView(out);
        proof {
            assert(r@ =~= self@);
        }
        r
    }
}

/// What holds of a flat view: every range is well formed, and each range
/// ends where the next starts or before it.
pub open spec fn view_wf(v: Seq<FlatRangeView>) -> bool {
    &&& forall|i: int| 0 <= i < v.len() ==> (#[trigger] v[i]).range_wf()
    &&& forall|i: int, j: int|
        0 <= i < j < v.len() ==> (#[trigger] v[i]).addr_range.end() <= (
        #[trigger] v[j]).addr_range.start()
}

/// The range of the view that holds the address `a`, if there is one.
pub open spec fn lookup(v: Seq<FlatRangeView>, a: int) -> Option<FlatRangeView>
    decreases v.len(),
{
    if v.len() == 0 {
        None
    } else if v[0].addr_range.contains(a) {
        Some(v[0])
    } else {
        lookup(v.skip(1), a)
    }
}

/// The flat range that `owner`, a region starting at `region_base`, gets
/// for the addresses from `lo` up to `hi`.
pub open spec fn piece(owner: RegionView, region_base: int, lo: int, hi: int) -> FlatRangeView {
    FlatRangeView {
        addr_range: AddressRange { base: GuestAddress(lo as u64), size: (hi - lo) as u64 },
        owner,
        offset_in_region: (lo - region_base) as u64,
        rom_dev_romd: owner.romd(),
    }
}

/// The view `v` after `owner` is laid under it on the addresses from `lo`
/// up to `hi`: the ranges of `v` stay as they are, and `owner` gets every
/// gap between them that lies in `lo..hi`, one range for each gap.
pub open spec fn paint(
    v: Seq<FlatRangeView>,
    owner: RegionView,
    region_base: int,
    lo: int,
    hi: int,
) -> Seq<FlatRangeView>
    decreases v.len(),
{
    if lo >= hi {
        v
    } else if v.len() == 0 {
        seq![piece(owner, region_base, lo, hi)]
    } else {
        let first = v[0];
        let rest = v.skip(1);
        if hi <= first.addr_range.start() {
            seq![piece(owner, region_base, lo, hi)] + v
        } else if first.addr_range.end() <= lo {
            seq![first] + paint(rest, owner, region_base, lo, hi)
        } else if lo < first.addr_range.start() {
            seq![piece(owner, region_base, lo, first.addr_range.start()), first] + paint(
                rest,
                owner,
                region_base,
                first.addr_range.end(),
                hi,
            )
        } else {
            seq![first] + paint(rest, owner, region_base, first.addr_range.end(), hi)
        }
    }
}

/// One step of painting over a view whose first range ends after `lo`:
/// the owner gets the gap in front of that range, if there is one, the
/// range stays, and painting goes on behind it.
pub proof fn lemma_paint_step(
    v: Seq<FlatRangeView>,
    owner: RegionView,
    region_base: int,
    lo: int,
    hi: int,
)
    requires
        v.len() > 0,
        lo < hi,
        lo < v[0].addr_range.end(),
    ensures
        paint(v, owner, region_base, lo, hi) == (if lo < v[0].addr_range.start() {
            seq![
                piece(owner, region_base, lo, vstd::math::min(hi, v[0].addr_range.start())),
                v[0],
            ]
        } else {
            seq![v[0]]
        }) + paint(v.skip(1), owner, region_base, vstd::math::min(hi, v[0].addr_range.end()), hi),
{
    let first = v[0];
    let rest = v.skip(1);
    let next = vstd::math::min(hi, first.addr_range.end());
    if first.addr_range.end() >= hi {
        assert(paint(rest, owner, region_base, first.addr_range.end(), hi) == rest);
        assert(paint(rest, owner, region_base, next, hi) == rest);
    }
    if hi <= first.addr_range.start() {
        assert(seq![piece(owner, region_base, lo, hi)] + v =~= seq![
            piece(owner, region_base, lo, hi),
            first,
        ] + rest);
    }
}

/// Whether a range can be painted: it lies within the 64-bit space and
/// within the owner, which is a terminal region.
pub open spec fn paintable(owner: RegionView, region_base: int, lo: int, hi: int) -> bool {
    &&& 0 <= region_base <= lo
    &&& hi <= u64::MAX
    &&& hi - region_base <= owner.size
    &&& owner.is_terminal()
}

/// A range found by `lookup` is a range of the view that holds the
/// address; where none is found, no range of the view holds it.
pub proof fn lemma_lookup_is_member(v: Seq<FlatRangeView>, a: int)
    ensures
        match lookup(v, a) {
            Some(e) => e.addr_range.contains(a) && exists|i: int| 0 <= i < v.len() && v[i] == e,
            None => forall|i: int| 0 <= i < v.len() ==> !(#[trigger] v[i]).addr_range.contains(a),
        },
    decreases v.len(),
{
    if v.len() > 0 {
        if v[0].addr_range.contains(a) {
            assert(v[0] == v[0]);
        } else {
            let rest = v.skip(1);
            lemma_lookup_is_member(rest, a);
            match lookup(rest, a) {
                Some(e) => {
                    let i = choose|i: int| 0 <= i < rest.len() && rest[i] == e;
                    assert(v[i + 1] == e);
                },
                None => {
                    assert forall|i: int| 0 <= i < v.len() implies !(
                    #[trigger] v[i]).addr_range.contains(a) by {
                        if i > 0 {
                            assert(rest[i - 1] == v[i]);
                        }
                    }
                },
            }
        }
    }
}

/// In a well-formed view, the range that holds an address is the one that
/// `lookup` finds.
pub proof fn lemma_lookup_at_index(v: Seq<FlatRangeView>, i: int, a: int)
    requires
        view_wf(v),
        0 <= i < v.len(),
        v[i].addr_range.contains(a),
    ensures
        lookup(v, a) == Some(v[i]),
    decreases v.len(),
{
    if i > 0 {
        let rest = v.skip(1);
        assert(forall|k: int| 0 <= k < rest.len() ==> rest[k] == v[k + 1]);
        assert(view_wf(rest));
        assert(rest[i - 1] == v[i]);
        lemma_lookup_at_index(rest, i - 1, a);
        assert(v[0].addr_range.end() <= v[i].addr_range.start());
    }
}

/// A well-formed view stays well formed when a well-formed range that ends
/// at or before all its ranges is put in front.
proof fn lemma_prepend_wf(x: FlatRangeView, s: Seq<FlatRangeView>)
    requires
        x.range_wf(),
        view_wf(s),
        forall|k: int| 0 <= k < s.len() ==> x.addr_range.end() <= (#[trigger] s[k]).addr_range.start(),
    ensures
        view_wf(seq![x] + s),
{
    let p = seq![x] + s;
    assert forall|i: int| 0 <= i < p.len() implies (#[trigger] p[i]).range_wf() by {
        if i > 0 {
            assert(p[i] == s[i - 1]);
        }
    }
    assert forall|i: int, j: int| 0 <= i < j < p.len() implies (#[trigger] p[i]).addr_range.end()
        <= (#[trigger] p[j]).addr_range.start() by {
        assert(p[j] == s[j - 1]);
        if i > 0 {
            assert(p[i] == s[i - 1]);
        }
    }
}

/// The tail of a well-formed view is well formed and starts at or after
/// the end of the head.
proof fn lemma_tail_wf(v: Seq<FlatRangeView>)
    requires
        view_wf(v),
        v.len() > 0,
    ensures
        view_wf(v.skip(1)),
        forall|k: int|
            0 <= k < v.skip(1).len() ==> v[0].addr_range.end() <= (#[trigger] v.skip(
                1,
            )[k]).addr_range.start(),
        v[0].range_wf(),
{
    let rest = v.skip(1);
    assert(forall|k: int| 0 <= k < rest.len() ==> rest[k] == v[k + 1]);
}

/// The least address at which the result of painting can start.
pub open spec fn paint_floor(v: Seq<FlatRangeView>, lo: int, hi: int) -> int {
    if v.len() == 0 {
        lo
    } else if lo >= hi {
        v[0].addr_range.start()
    } else {
        vstd::math::min(lo, v[0].addr_range.start())
    }
}

/// Painting keeps a view well formed: sorted by address, with no two
/// ranges sharing an address.
pub proof fn lemma_paint_wf(
    v: Seq<FlatRangeView>,
    owner: RegionView,
    region_base: int,
    lo: int,
    hi: int,
)
    requires
        view_wf(v),
        paintable(owner, region_base, lo, hi),
    ensures
        view_wf(paint(v, owner, region_base, lo, hi)),
        forall|k: int|
            0 <= k < paint(v, owner, region_base, lo, hi).len() ==> paint_floor(v, lo, hi) <= (
            #[trigger] paint(v, owner, region_base, lo, hi)[k]).addr_range.start(),
    decreases v.len(),
{
    let p = paint(v, owner, region_base, lo, hi);
    if lo >= hi {
        assert forall|k: int| 0 <= k < p.len() implies paint_floor(v, lo, hi) <= (
        #[trigger] p[k]).addr_range.start() by {
            if k > 0 {
                assert(v[0].addr_range.end() <= v[k].addr_range.start());
                assert(v[0].range_wf());
            }
        }
    } else if v.len() == 0 {
        assert(p[0].range_wf());
    } else {
        let first = v[0];
        let rest = v.skip(1);
        lemma_tail_wf(v);
        if hi <= first.addr_range.start() {
            let x = piece(owner, region_base, lo, hi);
            assert forall|k: int| 0 <= k < v.len() implies x.addr_range.end() <= (
            #[trigger] v[k]).addr_range.start() by {
                if k > 0 {
                    assert(v[0].addr_range.end() <= v[k].addr_range.start());
                }
            }
            lemma_prepend_wf(x, v);
            assert forall|k: int| 0 <= k < p.len() implies paint_floor(v, lo, hi) <= (
            #[trigger] p[k]).addr_range.start() by {
                if k > 0 {
                    assert(p[k] == v[k - 1]);
                }
            }
        } else if first.addr_range.end() <= lo {
            let q = paint(rest, owner, region_base, lo, hi);
            lemma_paint_wf(rest, owner, region_base, lo, hi);
            assert forall|k: int| 0 <= k < q.len() implies first.addr_range.end() <= (
            #[trigger] q[k]).addr_range.start() by {
                assert(paint_floor(rest, lo, hi) <= q[k].addr_range.start());
                if rest.len() > 0 {
                    assert(first.addr_range.end() <= rest[0].addr_range.start());
                }
            }
            lemma_prepend_wf(first, q);
            assert forall|k: int| 0 <= k < p.len() implies paint_floor(v, lo, hi) <= (
            #[trigger] p[k]).addr_range.start() by {
                if k > 0 {
                    assert(p[k] == q[k - 1]);
                }
            }
        } else {
            let next = first.addr_range.end();
            let q = paint(rest, owner, region_base, next, hi);
            lemma_paint_wf(rest, owner, region_base, next, hi);
            assert forall|k: int| 0 <= k < q.len() implies first.addr_range.end() <= (
            #[trigger] q[k]).addr_range.start() by {
                assert(paint_floor(rest, next, hi) <= q[k].addr_range.start());
                if rest.len() > 0 {
                    assert(first.addr_range.end() <= rest[0].addr_range.start());
                }
            }
            lemma_prepend_wf(first, q);
            if lo < first.addr_range.start() {
                let x = piece(owner, region_base, lo, first.addr_range.start());
                let fq = seq![first] + q;
                assert forall|k: int| 0 <= k < fq.len() implies x.addr_range.end() <= (
                #[trigger] fq[k]).addr_range.start() by {
                    if k > 0 {
                        assert(fq[k] == q[k - 1]);
                    }
                }
                lemma_prepend_wf(x, fq);
                assert(p =~= seq![x] + fq);
                assert forall|k: int| 0 <= k < p.len() implies paint_floor(v, lo, hi) <= (
                #[trigger] p[k]).addr_range.start() by {
                    if k > 0 {
                        assert(p[k] == fq[k - 1]);
                    }
                }
            } else {
                assert forall|k: int| 0 <= k < p.len() implies paint_floor(v, lo, hi) <= (
                #[trigger] p[k]).addr_range.start() by {
                    if k > 0 {
                        assert(p[k] == q[k - 1]);
                    }
                }
            }
        }
    }
}

/// What a painted range at the address `a` looks like: it belongs to
/// `owner`, lies within `lo..hi`, holds `a`, and maps each of its
/// addresses to the same place in the owner as the owner's start does.
pub open spec fn painted_at(
    e: FlatRangeView,
    owner: RegionView,
    region_base: int,
    lo: int,
    hi: int,
    a: int,
) -> bool {
    &&& e.owner == owner
    &&& e.rom_dev_romd == owner.romd()
    &&& e.addr_range.contains(a)
    &&& lo <= e.addr_range.start()
    &&& e.addr_range.end() <= hi
    &&& e.region_base() == region_base
}

/// First writer wins: after painting, an address that the view held
/// before is held by the same range, an address in `lo..hi` that it did
/// not hold is held by a range of the owner, and any other address is
/// held by no range.
pub proof fn lemma_paint_lookup(
    v: Seq<FlatRangeView>,
    owner: RegionView,
    region_base: int,
    lo: int,
    hi: int,
    a: int,
)
    requires
        view_wf(v),
        paintable(owner, region_base, lo, hi),
    ensures
        match lookup(v, a) {
            Some(e) => lookup(paint(v, owner, region_base, lo, hi), a) == Some(e),
            None => if lo <= a < hi {
                lookup(paint(v, owner, region_base, lo, hi), a) matches Some(e) && painted_at(
                    e,
                    owner,
                    region_base,
                    lo,
                    hi,
                    a,
                )
            } else {
                lookup(paint(v, owner, region_base, lo, hi), a) is None
            },
        },
    decreases v.len(),
{
    let p = paint(v, owner, region_base, lo, hi);
    if lo >= hi {
    } else if v.len() == 0 {
        assert(p.skip(1) =~= Seq::<FlatRangeView>::empty());
        assert(lookup(p.skip(1), a) is None);
    } else {
        let first = v[0];
        let rest = v.skip(1);
        lemma_tail_wf(v);
        lemma_lookup_is_member(v, a);
        lemma_lookup_is_member(rest, a);
        assert(lookup(v, a) == if first.addr_range.contains(a) {
            Some(first)
        } else {
            lookup(rest, a)
        });
        if hi <= first.addr_range.start() {
            let x = piece(owner, region_base, lo, hi);
            assert(p[0] == x);
            assert(p.skip(1) =~= v);
            assert(lookup(p, a) == if x.addr_range.contains(a) {
                Some(x)
            } else {
                lookup(v, a)
            });
            if lo <= a < hi {
                assert forall|i: int| 0 <= i < v.len() implies !(
                #[trigger] v[i]).addr_range.contains(a) by {
                    if i > 0 {
                        assert(v[0].addr_range.end() <= v[i].addr_range.start());
                    }
                }
            }
        } else if first.addr_range.end() <= lo {
            let q = paint(rest, owner, region_base, lo, hi);
            assert(p[0] == first);
            assert(p.skip(1) =~= q);
            assert(lookup(p, a) == if first.addr_range.contains(a) {
                Some(first)
            } else {
                lookup(q, a)
            });
            lemma_paint_lookup(rest, owner, region_base, lo, hi, a);
        } else {
            let next = first.addr_range.end();
            let q = paint(rest, owner, region_base, next, hi);
            lemma_paint_lookup(rest, owner, region_base, next, hi, a);
            if lo < first.addr_range.start() {
                let x = piece(owner, region_base, lo, first.addr_range.start());
                let fq = seq![first] + q;
                assert(p[0] == x);
                assert(p.skip(1) =~= fq);
                assert(fq[0] == first);
                assert(fq.skip(1) =~= q);
                assert(lookup(fq, a) == if first.addr_range.contains(a) {
                    Some(first)
                } else {
                    lookup(q, a)
                });
                assert(lookup(p, a) == if x.addr_range.contains(a) {
                    Some(x)
                } else {
                    lookup(fq, a)
                });
                if x.addr_range.contains(a) {
                    assert forall|i: int| 0 <= i < v.len() implies !(
                    #[trigger] v[i]).addr_range.contains(a) by {
                        if i > 0 {
                            assert(v[0].addr_range.end() <= v[i].addr_range.start());
                        }
                    }
                }
            } else {
                assert(p[0] == first);
                assert(p.skip(1) =~= q);
                assert(lookup(p, a) == if first.addr_range.contains(a) {
                    Some(first)
                } else {
                    lookup(q, a)
                });
            }
        }
    }
}

} // verus!
