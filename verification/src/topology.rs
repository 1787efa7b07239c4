//! What a change of the flat view asks of the listeners: which requests
//! follow from an old and a new view, and in which order they reach the
//! listeners.

use vstd::prelude::*;

use crate::address::{AddressRange, GuestAddress};
use crate::flat_view::{view_wf, FlatRangeView};
use crate::error::Error;
use crate::listener::ListenerReqType;
use crate::region::{RegionIoEventFd, RegionType};

verus! {

/// One request, as every listener gets it.
pub struct Request {
    /// What is asked.
    pub req_type: ListenerReqType,
    /// The flat range of a region request.
    pub range: Option<FlatRangeView>,
    /// The descriptor of an event descriptor request.
    pub evtfd: Option<RegionIoEventFd>,
}

/// One request handed to one listener.
pub struct Notification {
    /// Place of the listener in the registry, which is in ascending order
    /// of priority.
    pub listener: int,
    /// The request.
    pub request: Request,
}

/// The request to take `range` away.
pub open spec fn delete_region(range: FlatRangeView) -> Request {
    Request { req_type: ListenerReqType::DeleteRegion, range: Some(range), evtfd: None }
}

/// The request to bring `range` in.
pub open spec fn add_region(range: FlatRangeView) -> Request {
    Request { req_type: ListenerReqType::AddRegion, range: Some(range), evtfd: None }
}

/// The request to take `evtfd` away.
pub open spec fn delete_ioeventfd(evtfd: RegionIoEventFd) -> Request {
    Request { req_type: ListenerReqType::DeleteIoeventfd, range: None, evtfd: Some(evtfd) }
}

/// The request to bring `evtfd` in.
pub open spec fn add_ioeventfd(evtfd: RegionIoEventFd) -> Request {
    Request { req_type: ListenerReqType::AddIoeventfd, range: None, evtfd: Some(evtfd) }
}

/// The failure of an update at the request `request`, which a listener
/// refused: it names the address and the size of the range or of the
/// descriptor that the request is about, and the type of region, which
/// is that of the owner of a range and I/O for a descriptor.
pub open spec fn failure_of(request: Request) -> Error {
    match request.range {
        Some(range) => Error::UpdateTopology(
            range.addr_range.base.0,
            range.addr_range.size,
            range.owner.region_type,
        ),
        None => match request.evtfd {
            Some(evtfd) => Error::UpdateTopology(
                evtfd.addr_range.base.0,
                evtfd.addr_range.size,
                RegionType::IO,
            ),
            None => Error::ListenerRequest(request.req_type),
        },
    }
}

/// Whether requests of this type go to the listeners from the highest
/// priority down. A region that goes and a descriptor that comes do so;
/// a region that comes and a descriptor that goes reach the lowest
/// priority first.
pub open spec fn is_descending(req_type: ListenerReqType) -> bool {
    req_type == ListenerReqType::DeleteRegion || req_type == ListenerReqType::AddIoeventfd
}

/// The listener that gets a request of the given type as the `k`-th of
/// `n` listeners.
pub open spec fn listener_at(n: nat, req_type: ListenerReqType, k: int) -> int {
    if is_descending(req_type) {
        n - 1 - k
    } else {
        k
    }
}

/// One request handed to each of `n` listeners, in the order that its
/// type calls for.
pub open spec fn fan_out(n: nat, request: Request) -> Seq<Notification> {
    Seq::new(
        n,
        |k: int| Notification { listener: listener_at(n, request.req_type, k), request },
    )
}

/// A run of requests handed to `n` listeners: each request reaches every
/// listener before the next request reaches any.
pub open spec fn notifications(n: nat, requests: Seq<Request>) -> Seq<Notification>
    decreases requests.len(),
{
    if requests.len() == 0 {
        Seq::empty()
    } else {
        notifications(n, requests.drop_last()) + fan_out(n, requests.last())
    }
}

/// `yes` as a run of one request, or no request.
pub open spec fn only_if(cond: bool, yes: Request) -> Seq<Request> {
    if cond {
        seq![yes]
    } else {
        Seq::empty()
    }
}

/// The region requests that lead from the view `old_v` to the view
/// `new_v`, from the `i`-th old and the `j`-th new range on. Both views
/// are walked in step by address. In the deleting pass every old range
/// with no unchanged range at its place in the new view is taken away; in
/// the adding pass every new range with no unchanged range at its place
/// in the old view is brought in.
pub open spec fn topology_pass(
    old_v: Seq<FlatRangeView>,
    new_v: Seq<FlatRangeView>,
    i: int,
    j: int,
    is_add: bool,
) -> Seq<Request>
    decreases old_v.len() - i + new_v.len() - j,
{
    if i < 0 || j < 0 || i > old_v.len() || j > new_v.len() {
        Seq::empty()
    } else if i < old_v.len() {
        let o = old_v[i];
        if j < new_v.len() {
            let n = new_v[j];
            if o.addr_range.base.0 < n.addr_range.base.0 || (o.addr_range.base == n.addr_range.base
                && !o.same_as(n)) {
                only_if(!is_add, delete_region(o)) + topology_pass(old_v, new_v, i + 1, j, is_add)
            } else if o.unchanged(n) {
                topology_pass(old_v, new_v, i + 1, j + 1, is_add)
            } else {
                only_if(is_add, add_region(n)) + topology_pass(old_v, new_v, i, j + 1, is_add)
            }
        } else {
            only_if(!is_add, delete_region(o)) + topology_pass(old_v, new_v, i + 1, j, is_add)
        }
    } else if j < new_v.len() {
        only_if(is_add, add_region(new_v[j])) + topology_pass(old_v, new_v, i, j + 1, is_add)
    } else {
        Seq::empty()
    }
}

/// The descriptor `e`, declared relative to the start of its region, at
/// its guest address when the region starts at `region_base`; nothing
/// when that address lies outside the 64-bit space.
pub open spec fn shifted(e: RegionIoEventFd, region_base: int) -> Option<RegionIoEventFd> {
    if region_base < 0 || e.addr_range.base.0 + region_base > u64::MAX {
        None
    } else {
        Some(
            RegionIoEventFd {
                addr_range: AddressRange {
                    base: GuestAddress((e.addr_range.base.0 + region_base) as u64),
                    size: e.addr_range.size,
                },
                ..e
            },
        )
    }
}

/// The descriptor `e` of the owner of `range` as the guest sees it, if
/// any of its addresses lies in `range`.
pub open spec fn visible(range: FlatRangeView, e: RegionIoEventFd) -> Option<RegionIoEventFd> {
    match shifted(e, range.region_base()) {
        Some(at) => if range.addr_range.overlaps(at.addr_range) {
            Some(at)
        } else {
            None
        },
        None => None,
    }
}

/// The descriptors among the first `k` of the owner of `range` that are
/// visible in `range`, in declared order.
pub open spec fn visible_ioeventfds(range: FlatRangeView, k: int) -> Seq<RegionIoEventFd>
    decreases k,
{
    if k <= 0 || k > range.owner.io_evtfds.len() {
        Seq::empty()
    } else {
        match visible(range, range.owner.io_evtfds[k - 1]) {
            Some(at) => visible_ioeventfds(range, k - 1).push(at),
            None => visible_ioeventfds(range, k - 1),
        }
    }
}

/// The descriptors that are active under the first `i` ranges of the
/// view `v`: range by range, those of the owner that are visible in the
/// range.
pub open spec fn active_ioeventfds(v: Seq<FlatRangeView>, i: int) -> Seq<RegionIoEventFd>
    decreases i,
{
    if i <= 0 || i > v.len() {
        Seq::empty()
    } else {
        active_ioeventfds(v, i - 1) + visible_ioeventfds(
            v[i - 1],
            v[i - 1].owner.io_evtfds.len() as int,
        )
    }
}

/// The descriptor requests that lead from the descriptors `old_e` to the
/// descriptors `new_e`, from the `i`-th old and the `j`-th new one on.
/// Both runs are merged by the order of descriptors: an old descriptor
/// that comes before the new one at hand is taken away, a new one that
/// comes before the old one at hand is brought in, and two that hold the
/// same place in the order are left alone.
pub open spec fn ioeventfds_pass(
    old_e: Seq<RegionIoEventFd>,
    new_e: Seq<RegionIoEventFd>,
    i: int,
    j: int,
) -> Seq<Request>
    decreases old_e.len() - i + new_e.len() - j,
{
    if i < 0 || j < 0 || i > old_e.len() || j > new_e.len() {
        Seq::empty()
    } else if i < old_e.len() && (j >= new_e.len() || old_e[i].spec_before(new_e[j])) {
        seq![delete_ioeventfd(old_e[i])] + ioeventfds_pass(old_e, new_e, i + 1, j)
    } else if j < new_e.len() && (i >= old_e.len() || new_e[j].spec_before(old_e[i])) {
        seq![add_ioeventfd(new_e[j])] + ioeventfds_pass(old_e, new_e, i, j + 1)
    } else if i < old_e.len() && j < new_e.len() {
        ioeventfds_pass(old_e, new_e, i + 1, j + 1)
    } else {
        Seq::empty()
    }
}

/// Handing out one more request adds its fan-out at the end.
pub proof fn lemma_notifications_push(n: nat, requests: Seq<Request>, request: Request)
    ensures
        notifications(n, requests.push(request)) == notifications(n, requests) + fan_out(
            n,
            request,
        ),
{
    assert(requests.push(request).drop_last() =~= requests);
}

/// Handing out two runs of requests one after the other is handing out
/// the first run and then the second.
pub proof fn lemma_notifications_concat(n: nat, a: Seq<Request>, b: Seq<Request>)
    ensures
        notifications(n, a + b) == notifications(n, a) + notifications(n, b),
    decreases b.len(),
{
    if b.len() == 0 {
        assert(a + b =~= a);
        assert(notifications(n, a) + notifications(n, b) =~= notifications(n, a));
    } else {
        lemma_notifications_concat(n, a, b.drop_last());
        assert((a + b).drop_last() =~= a + b.drop_last());
        assert((a + b).last() == b.last());
        assert(notifications(n, a + b) =~= notifications(n, a) + notifications(n, b));
    }
}

/// What was handed out before a run of requests is finished is the start
/// of what the finished run hands out.
pub proof fn lemma_notifications_prefix(
    n: nat,
    done: Seq<Request>,
    all: Seq<Request>,
    request: Request,
    m: int,
)
    requires
        done.push(request).is_prefix_of(all),
        0 <= m <= n,
    ensures
        (notifications(n, done) + fan_out(n, request).take(m)).is_prefix_of(
            notifications(n, all),
        ),
{
    let first = done.push(request);
    let rest = all.skip(first.len() as int);
    assert(all =~= first + rest);
    lemma_notifications_concat(n, first, rest);
    lemma_notifications_push(n, done, request);
    let whole = notifications(n, done) + fan_out(n, request) + notifications(n, rest);
    let part = notifications(n, done) + fan_out(n, request).take(m);
    assert(notifications(n, all) == whole);
    assert(part.len() <= whole.len());
    assert forall|k: int| 0 <= k < part.len() implies part[k] == whole[k] by {}
    assert(part =~= whole.subrange(0, part.len() as int));
}

/// Diff minimality: between two views of the same length that are the
/// same range for range but for the owner of the `k`-th, the deleting
/// pass takes away that one old range and nothing else, and the adding
/// pass brings in that one new range and nothing else.
pub proof fn lemma_one_owner_changed(
    old_v: Seq<FlatRangeView>,
    new_v: Seq<FlatRangeView>,
    k: int,
)
    requires
        view_wf(old_v),
        view_wf(new_v),
        old_v.len() == new_v.len(),
        0 <= k < old_v.len(),
        forall|i: int| 0 <= i < old_v.len() && i != k ==> old_v[i] == new_v[i],
        old_v[k].addr_range == new_v[k].addr_range,
        old_v[k].owner.id != new_v[k].owner.id,
    ensures
        topology_pass(old_v, new_v, 0, 0, false) == seq![delete_region(old_v[k])],
        topology_pass(old_v, new_v, 0, 0, true) == seq![add_region(new_v[k])],
{
    lemma_one_owner_changed_from(old_v, new_v, k, 0, false);
    lemma_one_owner_changed_from(old_v, new_v, k, 0, true);
}

/// The same from the `i`-th range on, for one pass.
proof fn lemma_one_owner_changed_from(
    old_v: Seq<FlatRangeView>,
    new_v: Seq<FlatRangeView>,
    k: int,
    i: int,
    is_add: bool,
)
    requires
        view_wf(old_v),
        view_wf(new_v),
        old_v.len() == new_v.len(),
        0 <= k < old_v.len(),
        forall|i: int| 0 <= i < old_v.len() && i != k ==> old_v[i] == new_v[i],
        old_v[k].addr_range == new_v[k].addr_range,
        old_v[k].owner.id != new_v[k].owner.id,
        0 <= i <= old_v.len(),
    ensures
        topology_pass(old_v, new_v, i, i, is_add) == if i <= k {
            if is_add {
                seq![add_region(new_v[k])]
            } else {
                seq![delete_region(old_v[k])]
            }
        } else {
            Seq::<Request>::empty()
        },
    decreases old_v.len() - i,
{
    if i < old_v.len() {
        lemma_one_owner_changed_from(old_v, new_v, k, i + 1, is_add);
        if i == k {
            // The old range goes first; the new one then stands before
            // the next old range, or after the last.
            let after_delete = topology_pass(old_v, new_v, i + 1, i, is_add);
            assert(topology_pass(old_v, new_v, i, i, is_add) == only_if(
                !is_add,
                delete_region(old_v[i]),
            ) + after_delete);
            if i + 1 < old_v.len() {
                assert(new_v[i].addr_range.end() <= new_v[i + 1].addr_range.start());
                assert(new_v[i].range_wf());
                assert(old_v[i + 1] == new_v[i + 1]);
            }
            assert(after_delete == only_if(is_add, add_region(new_v[i])) + topology_pass(
                old_v,
                new_v,
                i + 1,
                i + 1,
                is_add,
            ));
            assert(only_if(!is_add, delete_region(old_v[i])) + (only_if(is_add, add_region(new_v[i]))
                + Seq::<Request>::empty()) =~= if is_add {
                seq![add_region(new_v[k])]
            } else {
                seq![delete_region(old_v[k])]
            });
        } else {
            assert(old_v[i] == new_v[i]);
            assert(old_v[i].unchanged(new_v[i]));
        }
    }
}

/// Whether the view `v` holds the range `x` unchanged.
pub open spec fn holds_unchanged(v: Seq<FlatRangeView>, x: FlatRangeView) -> bool {
    exists|k: int| 0 <= k < v.len() && (#[trigger] v[k]).unchanged(x)
}

/// The ranges of `old_v` from the `i`-th on that `new_v` does not hold
/// unchanged, each as a request to take it away.
pub open spec fn gone(old_v: Seq<FlatRangeView>, new_v: Seq<FlatRangeView>, i: int) -> Seq<Request>
    decreases old_v.len() - i,
{
    if i < 0 || i >= old_v.len() {
        Seq::empty()
    } else {
        only_if(!holds_unchanged(new_v, old_v[i]), delete_region(old_v[i])) + gone(
            old_v,
            new_v,
            i + 1,
        )
    }
}

/// The ranges of `new_v` from the `j`-th on that `old_v` does not hold
/// unchanged, each as a request to bring it in.
pub open spec fn come(old_v: Seq<FlatRangeView>, new_v: Seq<FlatRangeView>, j: int) -> Seq<Request>
    decreases new_v.len() - j,
{
    if j < 0 || j >= new_v.len() {
        Seq::empty()
    } else {
        only_if(!holds_unchanged(old_v, new_v[j]), add_region(new_v[j])) + come(
            old_v,
            new_v,
            j + 1,
        )
    }
}

/// Whether no range that a pass has left behind in one view is unchanged
/// among the ranges that it has still to see in the other.
spec fn passed_apart(old_v: Seq<FlatRangeView>, new_v: Seq<FlatRangeView>, i: int, j: int) -> bool {
    &&& forall|a: int, b: int|
        i <= a < old_v.len() && 0 <= b < j ==> !(#[trigger] new_v[b]).unchanged(
            #[trigger] old_v[a],
        )
    &&& forall|a: int, b: int|
        0 <= a < i && j <= b < new_v.len() ==> !(#[trigger] new_v[b]).unchanged(
            #[trigger] old_v[a],
        )
}

/// In a well-formed view the ranges start in strictly ascending order.
proof fn lemma_bases_ascend(v: Seq<FlatRangeView>, a: int, b: int)
    requires
        view_wf(v),
        0 <= a < b < v.len(),
    ensures
        v[a].addr_range.base.0 < v[b].addr_range.base.0,
{
    assert(v[a].range_wf());
    assert(v[a].addr_range.end() <= v[b].addr_range.start());
}

/// The minimal difference: between two well-formed views, the deleting
/// pass takes away just the old ranges that the new view does not hold
/// unchanged, and the adding pass brings in just the new ranges that the
/// old view does not hold unchanged, each in the order of the view.
pub proof fn lemma_passes_are_minimal(old_v: Seq<FlatRangeView>, new_v: Seq<FlatRangeView>)
    requires
        view_wf(old_v),
        view_wf(new_v),
    ensures
        topology_pass(old_v, new_v, 0, 0, false) == gone(old_v, new_v, 0),
        topology_pass(old_v, new_v, 0, 0, true) == come(old_v, new_v, 0),
{
    lemma_pass_from(old_v, new_v, 0, 0);
}

/// The same from the `i`-th old and the `j`-th new range on.
proof fn lemma_pass_from(old_v: Seq<FlatRangeView>, new_v: Seq<FlatRangeView>, i: int, j: int)
    requires
        view_wf(old_v),
        view_wf(new_v),
        0 <= i <= old_v.len(),
        0 <= j <= new_v.len(),
        passed_apart(old_v, new_v, i, j),
    ensures
        topology_pass(old_v, new_v, i, j, false) == gone(old_v, new_v, i),
        topology_pass(old_v, new_v, i, j, true) == come(old_v, new_v, j),
    decreases old_v.len() - i + new_v.len() - j,
{
    let none = Seq::<Request>::empty();
    if i < old_v.len() && j < new_v.len() {
        let o = old_v[i];
        let n = new_v[j];
        if o.addr_range.base.0 < n.addr_range.base.0 || (o.addr_range.base == n.addr_range.base
            && !o.same_as(n)) {
            // the old range goes: nothing to come holds it unchanged
            assert forall|b: int| 0 <= b < new_v.len() implies !(#[trigger] new_v[b]).unchanged(
                o,
            ) by {
                if b > j {
                    lemma_bases_ascend(new_v, j, b);
                }
            }
            assert(passed_apart(old_v, new_v, i + 1, j));
            lemma_pass_from(old_v, new_v, i + 1, j);
            assert(none + come(old_v, new_v, j) =~= come(old_v, new_v, j));
        } else if o.unchanged(n) {
            assert(new_v[j].unchanged(o));
            assert(old_v[i].unchanged(n));
            assert forall|a: int, b: int|
                i + 1 <= a < old_v.len() && 0 <= b < j + 1 implies !(
            #[trigger] new_v[b]).unchanged(#[trigger] old_v[a]) by {
                if b == j {
                    lemma_bases_ascend(old_v, i, a);
                }
            }
            assert forall|a: int, b: int|
                0 <= a < i + 1 && j + 1 <= b < new_v.len() implies !(
            #[trigger] new_v[b]).unchanged(#[trigger] old_v[a]) by {
                if a == i {
                    lemma_bases_ascend(new_v, j, b);
                }
            }
            lemma_pass_from(old_v, new_v, i + 1, j + 1);
            assert(none + gone(old_v, new_v, i + 1) =~= gone(old_v, new_v, i + 1));
            assert(none + come(old_v, new_v, j + 1) =~= come(old_v, new_v, j + 1));
        } else {
            // the new range comes: nothing still to go holds it unchanged
            assert forall|a: int| 0 <= a < old_v.len() implies !(#[trigger] old_v[a]).unchanged(
                n,
            ) by {
                if a > i {
                    lemma_bases_ascend(old_v, i, a);
                } else if a < i {
                    assert(!new_v[j].unchanged(old_v[a]));
                }
            }
            assert forall|a: int, b: int|
                i <= a < old_v.len() && 0 <= b < j + 1 implies !(#[trigger] new_v[b]).unchanged(
                #[trigger] old_v[a],
            ) by {
                if b == j {
                    assert(!old_v[a].unchanged(n));
                }
            }
            lemma_pass_from(old_v, new_v, i, j + 1);
            assert(none + gone(old_v, new_v, i) =~= gone(old_v, new_v, i));
        }
    } else if i < old_v.len() {
        let o = old_v[i];
        assert forall|b: int| 0 <= b < new_v.len() implies !(#[trigger] new_v[b]).unchanged(o) by {}
        assert(passed_apart(old_v, new_v, i + 1, j));
        lemma_pass_from(old_v, new_v, i + 1, j);
        assert(none + come(old_v, new_v, j) =~= come(old_v, new_v, j));
    } else if j < new_v.len() {
        let n = new_v[j];
        assert forall|a: int| 0 <= a < old_v.len() implies !(#[trigger] old_v[a]).unchanged(n) by {
            assert(!new_v[j].unchanged(old_v[a]));
        }
        assert(passed_apart(old_v, new_v, i, j + 1));
        lemma_pass_from(old_v, new_v, i, j + 1);
        assert(none + gone(old_v, new_v, i) =~= gone(old_v, new_v, i));
    }
}

/// Between a view and itself neither pass asks anything: every range is
/// unchanged at its own place.
pub proof fn lemma_topology_pass_same(v: Seq<FlatRangeView>, i: int, is_add: bool)
    requires
        0 <= i <= v.len(),
    ensures
        topology_pass(v, v, i, i, is_add) == Seq::<Request>::empty(),
    decreases v.len() - i,
{
    if i < v.len() {
        assert(v[i].unchanged(v[i]));
        lemma_topology_pass_same(v, i + 1, is_add);
    }
}

/// Running the descriptor pass on the same descriptors twice asks
/// nothing: no descriptor comes before itself.
pub proof fn lemma_ioeventfds_pass_same(e: Seq<RegionIoEventFd>, i: int)
    requires
        0 <= i <= e.len(),
    ensures
        ioeventfds_pass(e, e, i, i) == Seq::<Request>::empty(),
    decreases e.len() - i,
{
    if i < e.len() {
        lemma_ioeventfds_pass_same(e, i + 1);
    }
}

} // verus!
