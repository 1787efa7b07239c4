//! The address space: a region tree, the flat view that is in force, the
//! listeners in order of priority, and the event descriptors that are
//! active.

use vstd::prelude::*;

use crate::address::{AddressRange, GuestAddress};
use crate::error::Error;
use crate::flat_view::{
    lemma_lookup_at_index, lemma_lookup_is_member, lookup, view_wf, FlatRange, FlatRangeView,
    FlatView,
};
use crate::listener::{Listener, ListenerReqType};
use crate::region::{
    Region, RegionAccess, RegionChange, RegionChangeView, RegionIoEventFd, RegionType, RegionView,
};
use crate::render::flat_view_of;
use crate::topology::{
    active_ioeventfds, add_ioeventfd, add_region, delete_ioeventfd, delete_region, failure_of,
    fan_out,
    ioeventfds_pass, lemma_notifications_concat, lemma_notifications_prefix,
    lemma_notifications_push, notifications, topology_pass, visible_ioeventfds, Notification,
    Request,
};

verus! {

impl FlatView {
    /// The range of the view that holds `addr`, if there is one.
    pub fn find_flatrange(&self, addr: GuestAddress) -> (r: Option<&FlatRange>)
        requires
            view_wf(self@),
        ensures
            match lookup(self@, addr.0 as int) {
                Some(e) => r matches Some(fr) && fr@ == e,
                None => r is None,
            },
    {
        let mut lo: usize = 0;
        let mut hi: usize = self.0.len();
        while lo < hi
            invariant
                lo <= hi <= self.0.len(),
                view_wf(self@),
                forall|k: int| 0 <= k < lo ==> (#[trigger] self@[k]).addr_range.base.0 <= addr.0,
                forall|k: int|
                    hi <= k < self.0.len() ==> (#[trigger] self@[k]).addr_range.base.0 > addr.0,
            decreases hi - lo,
        {
            let mid: usize = lo + (hi - lo) / 2;
            proof {
                assert(self@[mid as int] == self.0[mid as int]@);
                assert(self@[mid as int].range_wf());
            }
            if self.0[mid].addr_range.base.0 <= addr.0 {
                proof {
                    assert forall|k: int| 0 <= k < mid + 1 implies (
                    #[trigger] self@[k]).addr_range.base.0 <= addr.0 by {
                        if k < mid {
                            assert(self@[k].range_wf());
                            assert(self@[k].addr_range.end() <= self@[mid as int].addr_range.start());
                        }
                    }
                }
                lo = mid + 1;
            } else {
                proof {
                    assert forall|k: int| mid <= k < self.0.len() implies (
                    #[trigger] self@[k]).addr_range.base.0 > addr.0 by {
                        if k > mid {
                            assert(self@[mid as int].addr_range.end()
                                <= self@[k].addr_range.start());
                        }
                    }
                }
                hi = mid;
            }
        }
        if lo > 0 {
            let fr = &self.0[lo - 1];
            proof {
                assert(self@[lo - 1] == fr@);
                assert(fr@.range_wf());
            }
            if addr.0 - fr.addr_range.base.0 < fr.addr_range.size {
                proof {
                    lemma_lookup_at_index(self@, lo - 1, addr.0 as int);
                }
                return Some(fr);
            }
        }
        proof {
            lemma_lookup_is_member(self@, addr.0 as int);
            assert forall|k: int| 0 <= k < self@.len() implies !(
            #[trigger] self@[k]).addr_range.contains(addr.0 as int) by {
                if k < lo - 1 {
                    assert(self@[k].addr_range.end() <= self@[lo - 1].addr_range.start());
                }
            }
        }
        None
    }

    /// Host address of the guest address `addr`: that of the start of the
    /// owning region plus the distance of `addr` from it; nothing where
    /// no range holds `addr` or the owner has no host memory.
    pub fn get_host_address(&self, addr: GuestAddress) -> (r: Option<u64>)
        requires
            view_wf(self@),
        ensures
            r == host_address_at(self@, addr.0),
    {
        match self.find_flatrange(addr) {
            Some(range) => {
                proof {
                    lemma_lookup_is_member(self@, addr.0 as int);
                    assert(range@.range_wf());
                }
                let offset: u64 = addr.0 - range.addr_range.base.0;
                match range.owner.get_host_address() {
                    Some(host) => Some(host + range.offset_in_region + offset),
                    None => None,
                }
            },
            None => None,
        }
    }

    /// How to read `count` bytes at the guest address `addr`: as the
    /// region that owns `addr` reads them at the place of `addr` in it.
    ///
    /// Fails with `RegionNotFound` where no range holds `addr`, and as
    /// the read of the owner fails.
    pub fn read(&self, addr: GuestAddress, count: u64) -> (r: Result<RegionAccess, Error>)
        requires
            view_wf(self@),
        ensures
            r == access_plan(self@, addr.0, count, false),
    {
        match self.find_flatrange(addr) {
            Some(fr) => {
                proof {
                    lemma_lookup_is_member(self@, addr.0 as int);
                    assert(fr@.range_wf());
                }
                let offset: u64 = addr.0 - fr.addr_range.base.0;
                let region_base = fr.addr_range.base.unchecked_sub(fr.offset_in_region);
                let offset_in_region: u64 = fr.offset_in_region + offset;
                fr.owner.read(region_base, offset_in_region, count)
            },
            None => Err(Error::RegionNotFound(addr.0)),
        }
    }

    /// How to write `count` bytes at the guest address `addr`: as the
    /// region that owns `addr` writes them at the place of `addr` in it.
    ///
    /// Fails with `RegionNotFound` where no range holds `addr`, and as
    /// the write of the owner fails.
    pub fn write(&self, addr: GuestAddress, count: u64) -> (r: Result<RegionAccess, Error>)
        requires
            view_wf(self@),
        ensures
            r == access_plan(self@, addr.0, count, true),
    {
        match self.find_flatrange(addr) {
            Some(fr) => {
                proof {
                    lemma_lookup_is_member(self@, addr.0 as int);
                    assert(fr@.range_wf());
                }
                let offset: u64 = addr.0 - fr.addr_range.base.0;
                let region_base = fr.addr_range.base.unchecked_sub(fr.offset_in_region);
                let offset_in_region: u64 = fr.offset_in_region + offset;
                fr.owner.write(region_base, offset_in_region, count)
            },
            None => Err(Error::RegionNotFound(addr.0)),
        }
    }

    /// Whether `size` bytes at `addr` lie in one range of RAM.
    pub fn address_in_memory(&self, addr: GuestAddress, size: u64) -> (r: bool)
        requires
            view_wf(self@),
        ensures
            r == in_memory(self@, addr.0, size),
    {
        match self.find_flatrange(addr) {
            Some(range) => {
                proof {
                    lemma_lookup_is_member(self@, addr.0 as int);
                    assert(range@.range_wf());
                }
                range.owner.region_type() == RegionType::Ram && size
                    <= range.addr_range.end_addr().offset_from(addr)
            },
            None => false,
        }
    }

    /// The range around `addr`, for a caller to remember: its owner's
    /// type, its bounds, and the host address of its start.
    pub fn get_region_cache(&self, addr: GuestAddress) -> (r: Option<RegionCache>)
        requires
            view_wf(self@),
        ensures
            r == region_cache_at(self@, addr.0),
    {
        match self.find_flatrange(addr) {
            Some(range) => {
                proof {
                    lemma_lookup_is_member(self@, addr.0 as int);
                    assert(range@.range_wf());
                }
                let reg_type = range.owner.region_type();
                let start: u64 = range.addr_range.base.0;
                let end: u64 = range.addr_range.end_addr().0;
                let host_base: u64 = match self.get_host_address(GuestAddress(start)) {
                    Some(host) => host,
                    None => 0,
                };
                Some(RegionCache { reg_type, host_base, start, end })
            },
            None => None,
        }
    }

    /// End of the RAM range that ends last, or zero without RAM.
    pub fn memory_end_address(&self) -> (r: GuestAddress)
        requires
            view_wf(self@),
        ensures
            r.0 == ram_end(self@, self@.len() as int),
    {
        let mut end: u64 = 0;
        let mut i: usize = 0;
        while i < self.0.len()
            invariant
                i <= self.0.len(),
                view_wf(self@),
                end == ram_end(self@, i as int),
            decreases self.0.len() - i,
        {
            let fr = &self.0[i];
            proof {
                assert(self@[i as int] == fr@);
                assert(fr@.range_wf());
            }
            if fr.owner.region_type() == RegionType::Ram {
                let fr_end: u64 = fr.addr_range.end_addr().0;
                if fr_end > end {
                    end = fr_end;
                }
            }
            i += 1;
        }
        GuestAddress(end)
    }
}

/// What a caller may remember of the flat range around an address.
#[derive(Clone, Copy, Debug, PartialEq, Eq, Structural)]
pub struct RegionCache {
    /// Type of the region that owns the range.
    pub reg_type: RegionType,
    /// Host address of the start of the range, or zero without host
    /// memory.
    pub host_base: u64,
    /// First guest address of the range.
    pub start: u64,
    /// First guest address past the range.
    pub end: u64,
}

impl Default for RegionCache {
    fn default() -> (r: RegionCache)
        ensures
            r == (RegionCache { reg_type: RegionType::Ram, host_base: 0, start: 0, end: 0 }),
    {
        RegionCache { reg_type: RegionType::Ram, host_base: 0, start: 0, end: 0 }
    }
}

/// The request made of the arguments of one call to the listeners.
pub open spec fn request_of(
    flat_range: Option<&FlatRange>,
    evtfd: Option<&RegionIoEventFd>,
    req_type: ListenerReqType,
) -> Request {
    Request {
        req_type,
        range: match flat_range {
            Some(fr) => Some(fr@),
            None => None,
        },
        evtfd: match evtfd {
            Some(e) => Some(*e),
            None => None,
        },
    }
}

/// The first `upto` ranges of the view `v`, each handed to the listener
/// at `listener` with a request of type `req_type`.
pub open spec fn replay(
    listener: int,
    req_type: ListenerReqType,
    v: Seq<FlatRangeView>,
    upto: int,
) -> Seq<Notification> {
    Seq::new(
        upto as nat,
        |i: int|
            Notification {
                listener,
                request: Request { req_type, range: Some(v[i]), evtfd: None },
            },
    )
}

/// Host address of the guest address `addr` under the view `v`: that of
/// the start of the owning region plus the distance of `addr` from it;
/// nothing where no range holds `addr` or the owner has no host memory.
pub open spec fn host_address_at(v: Seq<FlatRangeView>, addr: u64) -> Option<u64> {
    match lookup(v, addr as int) {
        Some(e) => match e.owner.host_address() {
            Some(host) => Some((host + (addr - e.region_base())) as u64),
            None => None,
        },
        None => None,
    }
}

/// Whether `size` bytes at the guest address `addr` lie in one range of
/// the view `v` that RAM owns.
pub open spec fn in_memory(v: Seq<FlatRangeView>, addr: u64, size: u64) -> bool {
    match lookup(v, addr as int) {
        Some(e) => e.owner.region_type == RegionType::Ram && addr + size <= e.addr_range.end(),
        None => false,
    }
}

/// What there is to remember of the range of the view `v` around the
/// guest address `addr`: the type of its owner, its bounds, and the host
/// address of its start, or zero without host memory.
pub open spec fn region_cache_at(v: Seq<FlatRangeView>, addr: u64) -> Option<RegionCache> {
    match lookup(v, addr as int) {
        Some(e) => Some(
            RegionCache {
                reg_type: e.owner.region_type,
                host_base: match host_address_at(v, e.addr_range.base.0) {
                    Some(host) => host,
                    None => 0,
                },
                start: e.addr_range.base.0,
                end: e.addr_range.end() as u64,
            },
        ),
        None => None,
    }
}

/// End of the RAM range that ends last among the first `i` ranges of the
/// view `v`, or zero where none of them is RAM.
pub open spec fn ram_end(v: Seq<FlatRangeView>, i: int) -> int
    decreases i,
{
    if i <= 0 || i > v.len() {
        0
    } else if v[i - 1].owner.region_type == RegionType::Ram {
        vstd::math::max(ram_end(v, i - 1), v[i - 1].addr_range.end())
    } else {
        ram_end(v, i - 1)
    }
}

/// How an access of `count` bytes at the guest address `addr` is carried
/// out under the view `v`; `is_write` tells a write from a read.
pub open spec fn access_plan(v: Seq<FlatRangeView>, addr: u64, count: u64, is_write: bool) -> Result<
    RegionAccess,
    Error,
> {
    match lookup(v, addr as int) {
        None => Err(Error::RegionNotFound(addr)),
        Some(e) => {
            let base = GuestAddress(e.region_base() as u64);
            let offset = (addr - e.region_base()) as u64;
            if is_write {
                e.owner.write_plan(base, offset, count)
            } else {
                e.owner.read_plan(base, offset, count)
            }
        },
    }
}

/// Whether `after` is the registry `before` with one listener taken in at
/// `place`: behind every listener whose priority is not above its own,
/// and before every other.
pub open spec fn registered_at(before: Seq<i32>, after: Seq<i32>, place: int) -> bool {
    &&& 0 <= place <= before.len()
    &&& after.len() == before.len() + 1
    &&& after == before.insert(place, after[place])
    &&& forall|k: int| 0 <= k < place ==> before[k] <= after[place]
    &&& forall|k: int| place <= k < before.len() ==> before[k] > after[place]
}

/// The whole range of a root region.
pub open spec fn root_range(root: RegionView) -> AddressRange {
    AddressRange { base: GuestAddress(0), size: root.size }
}

/// The region requests that lead from the view `old_v` to the view
/// `new_v`: first every range that goes, then every range that comes.
pub open spec fn region_requests(old_v: Seq<FlatRangeView>, new_v: Seq<FlatRangeView>) -> Seq<
    Request,
> {
    topology_pass(old_v, new_v, 0, 0, false) + topology_pass(old_v, new_v, 0, 0, true)
}

/// The requests that lead from the view `old_v` with the active
/// descriptors `old_e` to the view `new_v`: the region requests, then
/// the requests about descriptors.
pub open spec fn update_requests(
    old_v: Seq<FlatRangeView>,
    old_e: Seq<RegionIoEventFd>,
    new_v: Seq<FlatRangeView>,
) -> Seq<Request> {
    region_requests(old_v, new_v) + ioeventfds_pass(
        old_e,
        active_ioeventfds(new_v, new_v.len() as int),
        0,
        0,
    )
}

/// The memory map of a guest and those who follow its changes.
pub struct AddressSpace<L: Listener> {
    /// The region tree.
    root: Region,
    /// The flat view in force; it is replaced as a whole.
    flat_view: FlatView,
    /// The listeners, in ascending order of priority.
    listeners: Vec<L>,
    /// The priority that each listener had when it was registered.
    priorities: Vec<i32>,
    /// The event descriptors that are active under the flat view.
    ioeventfds: Vec<RegionIoEventFd>,
    /// Every request handed to a listener so far, in order.
    delivered: Ghost<Seq<Notification>>,
}

impl<L: Listener> AddressSpace<L> {
    /// The region tree.
    pub closed spec fn root_view(&self) -> RegionView {
        self.root@
    }

    /// The flat view in force.
    pub closed spec fn flat(&self) -> Seq<FlatRangeView> {
        self.flat_view@
    }

    /// Priorities of the listeners, in the order of the registry.
    pub closed spec fn priorities(&self) -> Seq<i32> {
        self.priorities@
    }

    /// The listeners, in the order of the registry.
    pub closed spec fn listeners(&self) -> Seq<L> {
        self.listeners@
    }

    /// The event descriptors that are active.
    pub closed spec fn active(&self) -> Seq<RegionIoEventFd> {
        self.ioeventfds@
    }

    /// Every request that the address space has handed to a listener, in
    /// order.
    pub closed spec fn delivered(&self) -> Seq<Notification> {
        self.delivered@
    }

    /// What holds of an address space: its flat view is well formed, and
    /// its listeners stand in ascending order of priority.
    pub closed spec fn wf(&self) -> bool {
        &&& view_wf(self.flat_view@)
        &&& self.priorities@.len() == self.listeners@.len()
        &&& forall|i: int, j: int|
            0 <= i < j < self.priorities@.len() ==> self.priorities@[i] <= self.priorities@[j]
    }

    /// Whether `other` differs from this address space at most in what
    /// has been handed to the listeners.
    pub open spec fn same_but_delivered(&self, other: &AddressSpace<L>) -> bool {
        &&& self.root_view() == other.root_view()
        &&& self.flat() == other.flat()
        &&& self.priorities() == other.priorities()
        &&& self.listeners() == other.listeners()
        &&& self.active() == other.active()
    }

    /// Whether this address space is what bringing the listeners up to
    /// date leaves, with the outcome `r`, of an address space with the
    /// same tree and listeners, the flat view `flat`, the active
    /// descriptors `active` and the requests `delivered` handed out.
    ///
    /// Where the tree cannot be rendered, that is the failure, and
    /// nothing has changed. Otherwise the listeners have been told, in
    /// order, of what leads to the new view, up to the first that failed:
    /// on success the new view and its descriptors are in force and every
    /// request has been handed out; on failure at least one request has
    /// been handed out, the failure names the range or the descriptor of
    /// the last of them, the descriptors are as they were, and the new
    /// view is in force only where a request about a descriptor failed.
    /// With no listener, and where no request is due, the outcome is
    /// success.
    pub open spec fn follows(
        &self,
        flat: Seq<FlatRangeView>,
        active: Seq<RegionIoEventFd>,
        delivered: Seq<Notification>,
        r: Result<(), Error>,
    ) -> bool {
        match flat_view_of(self.root_view(), 0, root_range(self.root_view())) {
            Err(e) => r == Err::<(), Error>(e) && self.flat() == flat && self.active() == active
                && self.delivered() == delivered,
            Ok(v) => {
                let all = update_requests(flat, active, v);
                let n = self.listeners().len();
                &&& delivered.is_prefix_of(self.delivered())
                &&& self.delivered().is_prefix_of(delivered + notifications(n, all))
                &&& r is Ok ==> self.flat() == v && self.active() == active_ioeventfds(
                    v,
                    v.len() as int,
                ) && self.delivered() == delivered + notifications(n, all)
                &&& r is Err ==> self.active() == active && self.flat() == if self.delivered().len()
                    > delivered.len() + notifications(n, region_requests(flat, v)).len() {
                    v
                } else {
                    flat
                }
                &&& r is Err ==> self.delivered().len() > delivered.len() && r == Err::<(), Error>(
                    failure_of(self.delivered().last().request),
                )
                &&& n == 0 || all.len() == 0 ==> r is Ok
            },
        }
    }

    /// Whether `after` is what making `change` to the region `id` leaves
    /// of this address space, with the outcome `r`.
    ///
    /// Where `id` names no region, or the change fails on the region,
    /// that is the failure and nothing has changed. Otherwise the tree
    /// holds the change; and where the change is one that can move the
    /// flat view, the listeners have been brought up to date.
    pub open spec fn changes(
        &self,
        after: &AddressSpace<L>,
        id: u64,
        change: RegionChangeView,
        r: Result<(), Error>,
    ) -> bool {
        &&& after.priorities() == self.priorities()
        &&& after.listeners() == self.listeners()
        &&& match self.root_view().changed(id, change) {
            None => r == Err::<(), Error>(Error::NoSuchRegion(id)) && self.same_but_delivered(
                after,
            ) && after.delivered() == self.delivered(),
            Some(Err(e)) => r == Err::<(), Error>(e) && self.same_but_delivered(after)
                && after.delivered() == self.delivered(),
            Some(Ok(v)) => after.root_view() == v && if RegionView::moves(change) {
                after.follows(self.flat(), self.active(), self.delivered(), r)
            } else {
                r is Ok && after.flat() == self.flat() && after.active() == self.active()
                    && after.delivered() == self.delivered()
            },
        }
    }

    /// In a well-formed address space the flat view is sorted and free of
    /// overlap, and the registry is sorted.
    pub proof fn lemma_wf(&self)
        requires
            self.wf(),
        ensures
            view_wf(self.flat()),
            self.priorities().len() == self.listeners().len(),
            forall|i: int, j: int|
                0 <= i < j < self.priorities().len() ==> self.priorities()[i]
                    <= self.priorities()[j],
    {
    }

    /// Hands one request to every listener, in the order that its type
    /// calls for, up to the first listener that fails.
    fn call_listeners(
        listeners: &Vec<L>,
        log: &mut Ghost<Seq<Notification>>,
        flat_range: Option<&FlatRange>,
        evtfd: Option<&RegionIoEventFd>,
        req_type: ListenerReqType,
    ) -> (r: Result<(), Error>)
        ensures
            exists|m: int|
                0 <= m <= listeners@.len() && final(log)@ == old(log)@ + (#[trigger] fan_out(
                    listeners@.len(),
                    request_of(flat_range, evtfd, req_type),
                ).take(m)) && (r is Ok ==> m == listeners@.len()) && (r is Err ==> m > 0),
    {
        let n: usize = listeners.len();
        let ghost request = request_of(flat_range, evtfd, req_type);
        let ghost all = fan_out(n as nat, request);
        let ghost log0 = log@;
        let descending: bool = match req_type {
            ListenerReqType::DeleteRegion | ListenerReqType::AddIoeventfd => true,
            _ => false,
        };
        let mut k: usize = 0;
        proof {
            assert(log0 + all.take(0) =~= log0);
        }
        while k < n
            invariant
                k <= n,
                n == listeners@.len(),
                all == fan_out(n as nat, request),
                request == request_of(flat_range, evtfd, req_type),
                log0 == old(log)@,
                descending == crate::topology::is_descending(req_type),
                log@ == log0 + all.take(k as int),
            decreases n - k,
        {
            let at: usize = if descending {
                n - 1 - k
            } else {
                k
            };
            let outcome = listeners[at].handle_request(flat_range, evtfd, req_type);
            proof {
                assert(all[k as int].listener == at);
                assert(all.take(k + 1) =~= all.take(k as int).push(all[k as int]));
                assert(log0 + all.take(k + 1) =~= (log0 + all.take(k as int)).push(all[k as int]));
            }
            *log = Ghost(log@.push(all[k as int]));
            k += 1;
            match outcome {
                Err(e) => {
                    return Err(e);
                },
                Ok(()) => {},
            }
        }
        Ok(())
    }

    /// Hands one request to every listener and keeps count of what has
    /// been handed out before: `done` are the requests of the run that
    /// were handed out in full, and the request at hand is the next of
    /// `all`.
    fn notify(
        listeners: &Vec<L>,
        log: &mut Ghost<Seq<Notification>>,
        flat_range: Option<&FlatRange>,
        evtfd: Option<&RegionIoEventFd>,
        req_type: ListenerReqType,
        Ghost(log0): Ghost<Seq<Notification>>,
        Ghost(done): Ghost<Seq<Request>>,
        Ghost(all): Ghost<Seq<Request>>,
    ) -> (r: Result<(), Error>)
        requires
            old(log)@ == log0 + notifications(listeners@.len(), done),
            done.push(request_of(flat_range, evtfd, req_type)).is_prefix_of(all),
        ensures
            (log0 + notifications(listeners@.len(), done)).is_prefix_of(final(log)@),
            final(log)@.is_prefix_of(log0 + notifications(listeners@.len(), all)),
            r is Ok ==> final(log)@ == log0 + notifications(
                listeners@.len(),
                done.push(request_of(flat_range, evtfd, req_type)),
            ),
            listeners@.len() == 0 ==> r is Ok,
            r is Err ==> final(log)@.len() > old(log)@.len() && final(log)@.last().request
                == request_of(flat_range, evtfd, req_type),
    {
        let ghost n = listeners@.len();
        let ghost request = request_of(flat_range, evtfd, req_type);
        let r = Self::call_listeners(listeners, log, flat_range, evtfd, req_type);
        proof {
            let m = choose|m: int|
                0 <= m <= n && log@ == old(log)@ + (#[trigger] fan_out(n, request).take(m)) && (r
                    is Ok ==> m == n) && (r is Err ==> m > 0);
            lemma_notifications_prefix(n, done, all, request, m);
            lemma_notifications_push(n, done, request);
            let before = log0 + notifications(n, done);
            let part = notifications(n, done) + fan_out(n, request).take(m);
            assert(log@ =~= log0 + part);
            let whole = notifications(n, all);
            assert(part =~= whole.subrange(0, part.len() as int));
            assert(log0 + part =~= (log0 + whole).subrange(0, (log0 + part).len() as int));
            assert(before =~= log@.subrange(0, before.len() as int));
            if r is Ok {
                assert(fan_out(n, request).take(m) =~= fan_out(n, request));
            } else {
                assert(log@.last() == fan_out(n, request)[m - 1]);
            }
        }
        r
    }

    /// One pass over an old and a new flat view, walked in step by
    /// address. The deleting pass tells the listeners of every old range
    /// that has no unchanged range at its place in the new view; the
    /// adding pass tells them of every new range that has no unchanged
    /// range at its place in the old view. The pass ends at the first
    /// listener that fails, with an `UpdateTopology` failure at the
    /// range.
    fn update_topology_pass(
        listeners: &Vec<L>,
        log: &mut Ghost<Seq<Notification>>,
        old_view: &FlatView,
        new_view: &FlatView,
        is_add: bool,
        Ghost(log0): Ghost<Seq<Notification>>,
        Ghost(done): Ghost<Seq<Request>>,
        Ghost(all): Ghost<Seq<Request>>,
    ) -> (r: Result<(), Error>)
        requires
            old(log)@ == log0 + notifications(listeners@.len(), done),
            (done + topology_pass(old_view@, new_view@, 0, 0, is_add)).is_prefix_of(all),
        ensures
            (log0 + notifications(listeners@.len(), done)).is_prefix_of(final(log)@),
            final(log)@.is_prefix_of(log0 + notifications(listeners@.len(), all)),
            r is Ok ==> final(log)@ == log0 + notifications(
                listeners@.len(),
                done + topology_pass(old_view@, new_view@, 0, 0, is_add),
            ),
            listeners@.len() == 0 ==> r is Ok,
            r is Err ==> final(log)@.len() > old(log)@.len() && r == Err::<(), Error>(
                failure_of(final(log)@.last().request),
            ),
    {
        let old_ranges = &old_view.0;
        let new_ranges = &new_view.0;
        let ghost n = listeners@.len();
        let ghost whole = topology_pass(old_view@, new_view@, 0, 0, is_add);
        let ghost mut emitted: Seq<Request> = Seq::empty();
        let mut old_idx: usize = 0;
        let mut new_idx: usize = 0;
        proof {
            assert(done + emitted =~= done);
            assert(emitted + whole =~= whole);
            lemma_between(log0 + notifications(n, done), log0, n, done, all);
        }

        while old_idx < old_ranges.len() || new_idx < new_ranges.len()
            invariant
                old_idx <= old_ranges.len(),
                new_idx <= new_ranges.len(),
                old_ranges == &old_view.0,
                new_ranges == &new_view.0,
                n == listeners@.len(),
                whole == topology_pass(old_view@, new_view@, 0, 0, is_add),
                (done + whole).is_prefix_of(all),
                emitted + topology_pass(old_view@, new_view@, old_idx as int, new_idx as int, is_add)
                    == whole,
                log@ == log0 + notifications(n, done + emitted),
                old(log)@.len() <= log@.len(),
                (log0 + notifications(n, done)).is_prefix_of(log@),
                log@.is_prefix_of(log0 + notifications(n, all)),
            decreases old_ranges.len() - old_idx + new_ranges.len() - new_idx,
        {
            let ghost rest = topology_pass(
                old_view@,
                new_view@,
                old_idx as int,
                new_idx as int,
                is_add,
            );
            // What this step does: stepping over the old range, with a
            // request or without, over both ranges, or over the new one.
            let mut tell_old: bool = false;
            let mut tell_new: bool = false;
            let mut step_old: bool = false;
            let mut step_new: bool = false;
            if old_idx < old_ranges.len() {
                let old_r = &old_ranges[old_idx];
                proof {
                    assert(old_view@[old_idx as int] == old_r@);
                }
                if new_idx < new_ranges.len() {
                    let new_r = &new_ranges[new_idx];
                    proof {
                        assert(new_view@[new_idx as int] == new_r@);
                    }
                    let same: bool = *old_r == *new_r;
                    if old_r.addr_range.base.0 < new_r.addr_range.base.0 || (
                    old_r.addr_range.base.0 == new_r.addr_range.base.0 && !same) {
                        tell_old = !is_add;
                        step_old = true;
                    } else if old_r.addr_range.base.0 == new_r.addr_range.base.0
                        && old_r.addr_range.size == new_r.addr_range.size && same {
                        step_old = true;
                        step_new = true;
                    } else {
                        tell_new = is_add;
                        step_new = true;
                    }
                } else {
                    tell_old = !is_add;
                    step_old = true;
                }
            } else {
                proof {
                    assert(new_view@[new_idx as int] == new_ranges[new_idx as int]@);
                }
                tell_new = is_add;
                step_new = true;
            }

            if tell_old {
                let old_r = &old_ranges[old_idx];
                let ghost request = delete_region(old_r@);
                proof {
                    assert(rest == seq![request] + topology_pass(
                        old_view@,
                        new_view@,
                        old_idx + 1,
                        new_idx as int,
                        is_add,
                    ));
                    lemma_next_request(done, emitted, request, rest, whole, all);
                }
                let outcome = Self::notify(
                    listeners,
                    log,
                    Some(old_r),
                    None,
                    ListenerReqType::DeleteRegion,
                    Ghost(log0),
                    Ghost(done + emitted),
                    Ghost(all),
                );
                match outcome {
                    Err(e) => {
                        proof {
                            lemma_prefix_chain(
                                log0 + notifications(n, done),
                                log0 + notifications(n, done + emitted),
                                log@,
                            );
                        }
                        return Err(
                            Error::UpdateTopology(
                                old_r.addr_range.base.0,
                                old_r.addr_range.size,
                                old_r.owner.region_type(),
                            ),
                        );
                    },
                    Ok(()) => {},
                }
                proof {
                    assert((done + emitted).push(request) =~= done + emitted.push(request));
                    emitted = emitted.push(request);
                }
            } else if tell_new {
                let new_r = &new_ranges[new_idx];
                let ghost request = add_region(new_r@);
                proof {
                    assert(rest == seq![request] + topology_pass(
                        old_view@,
                        new_view@,
                        old_idx as int,
                        new_idx + 1,
                        is_add,
                    ));
                    lemma_next_request(done, emitted, request, rest, whole, all);
                }
                let outcome = Self::notify(
                    listeners,
                    log,
                    Some(new_r),
                    None,
                    ListenerReqType::AddRegion,
                    Ghost(log0),
                    Ghost(done + emitted),
                    Ghost(all),
                );
                match outcome {
                    Err(e) => {
                        proof {
                            lemma_prefix_chain(
                                log0 + notifications(n, done),
                                log0 + notifications(n, done + emitted),
                                log@,
                            );
                        }
                        return Err(
                            Error::UpdateTopology(
                                new_r.addr_range.base.0,
                                new_r.addr_range.size,
                                new_r.owner.region_type(),
                            ),
                        );
                    },
                    Ok(()) => {},
                }
                proof {
                    assert((done + emitted).push(request) =~= done + emitted.push(request));
                    emitted = emitted.push(request);
                }
            }
            proof {
                let next = topology_pass(
                    old_view@,
                    new_view@,
                    old_idx + if step_old {
                        1int
                    } else {
                        0int
                    },
                    new_idx + if step_new {
                        1int
                    } else {
                        0int
                    },
                    is_add,
                );
                assert(emitted + next =~= whole);
                lemma_prefix_of_whole(done, emitted, next, whole, all);
                lemma_between(log@, log0, n, done + emitted, all);
                lemma_grows(log0, n, done, emitted);
            }
            if step_old {
                old_idx += 1;
            }
            if step_new {
                new_idx += 1;
            }
        }
        proof {
            assert(emitted =~= whole);
        }
        Ok(())
    }

    /// One pass over the active descriptors and the new ones, merged by
    /// the order of descriptors: the listeners are told of every old
    /// descriptor that comes before the new one at hand, which goes, and
    /// of every new descriptor that comes before the old one at hand,
    /// which comes. The pass ends at the first listener that fails, with
    /// an `UpdateTopology` failure at the descriptor.
    fn update_ioeventfds_pass(
        listeners: &Vec<L>,
        log: &mut Ghost<Seq<Notification>>,
        old_evtfds: &Vec<RegionIoEventFd>,
        new_evtfds: &Vec<RegionIoEventFd>,
        Ghost(log0): Ghost<Seq<Notification>>,
        Ghost(done): Ghost<Seq<Request>>,
        Ghost(all): Ghost<Seq<Request>>,
    ) -> (r: Result<(), Error>)
        requires
            old(log)@ == log0 + notifications(listeners@.len(), done),
            (done + ioeventfds_pass(old_evtfds@, new_evtfds@, 0, 0)).is_prefix_of(all),
        ensures
            (log0 + notifications(listeners@.len(), done)).is_prefix_of(final(log)@),
            final(log)@.is_prefix_of(log0 + notifications(listeners@.len(), all)),
            r is Ok ==> final(log)@ == log0 + notifications(
                listeners@.len(),
                done + ioeventfds_pass(old_evtfds@, new_evtfds@, 0, 0),
            ),
            listeners@.len() == 0 ==> r is Ok,
            r is Err ==> final(log)@.len() > old(log)@.len() && r == Err::<(), Error>(
                failure_of(final(log)@.last().request),
            ),
            r matches Err(e) ==> e matches Error::UpdateTopology(_, _, RegionType::IO),
    {
        let ghost n = listeners@.len();
        let ghost whole = ioeventfds_pass(old_evtfds@, new_evtfds@, 0, 0);
        let ghost mut emitted: Seq<Request> = Seq::empty();
        let mut old_idx: usize = 0;
        let mut new_idx: usize = 0;
        proof {
            assert(done + emitted =~= done);
            assert(emitted + whole =~= whole);
            lemma_between(log0 + notifications(n, done), log0, n, done, all);
        }

        while old_idx < old_evtfds.len() || new_idx < new_evtfds.len()
            invariant
                old_idx <= old_evtfds.len(),
                new_idx <= new_evtfds.len(),
                n == listeners@.len(),
                whole == ioeventfds_pass(old_evtfds@, new_evtfds@, 0, 0),
                (done + whole).is_prefix_of(all),
                emitted + ioeventfds_pass(old_evtfds@, new_evtfds@, old_idx as int, new_idx as int)
                    == whole,
                log@ == log0 + notifications(n, done + emitted),
                old(log)@.len() <= log@.len(),
                (log0 + notifications(n, done)).is_prefix_of(log@),
                log@.is_prefix_of(log0 + notifications(n, all)),
            decreases old_evtfds.len() - old_idx + new_evtfds.len() - new_idx,
        {
            let ghost rest = ioeventfds_pass(
                old_evtfds@,
                new_evtfds@,
                old_idx as int,
                new_idx as int,
            );
            let old_first: bool = old_idx < old_evtfds.len() && (new_idx >= new_evtfds.len()
                || old_evtfds[old_idx].before(&new_evtfds[new_idx]));
            let new_first: bool = !old_first && new_idx < new_evtfds.len() && (old_idx
                >= old_evtfds.len() || new_evtfds[new_idx].before(&old_evtfds[old_idx]));
            if old_first {
                let old_fd = &old_evtfds[old_idx];
                let ghost request = delete_ioeventfd(*old_fd);
                proof {
                    lemma_next_request(done, emitted, request, rest, whole, all);
                }
                let outcome = Self::notify(
                    listeners,
                    log,
                    None,
                    Some(old_fd),
                    ListenerReqType::DeleteIoeventfd,
                    Ghost(log0),
                    Ghost(done + emitted),
                    Ghost(all),
                );
                if outcome.is_err() {
                    proof {
                        lemma_prefix_chain(
                            log0 + notifications(n, done),
                            log0 + notifications(n, done + emitted),
                            log@,
                        );
                    }
                    return Err(
                        Error::UpdateTopology(
                            old_fd.addr_range.base.0,
                            old_fd.addr_range.size,
                            RegionType::IO,
                        ),
                    );
                }
                proof {
                    assert((done + emitted).push(request) =~= done + emitted.push(request));
                    emitted = emitted.push(request);
                }
                old_idx += 1;
            } else if new_first {
                let new_fd = &new_evtfds[new_idx];
                let ghost request = add_ioeventfd(*new_fd);
                proof {
                    lemma_next_request(done, emitted, request, rest, whole, all);
                }
                let outcome = Self::notify(
                    listeners,
                    log,
                    None,
                    Some(new_fd),
                    ListenerReqType::AddIoeventfd,
                    Ghost(log0),
                    Ghost(done + emitted),
                    Ghost(all),
                );
                if outcome.is_err() {
                    proof {
                        lemma_prefix_chain(
                            log0 + notifications(n, done),
                            log0 + notifications(n, done + emitted),
                            log@,
                        );
                    }
                    return Err(
                        Error::UpdateTopology(
                            new_fd.addr_range.base.0,
                            new_fd.addr_range.size,
                            RegionType::IO,
                        ),
                    );
                }
                proof {
                    assert((done + emitted).push(request) =~= done + emitted.push(request));
                    emitted = emitted.push(request);
                }
                new_idx += 1;
            } else {
                old_idx += 1;
                new_idx += 1;
            }
            proof {
                let next = ioeventfds_pass(
                    old_evtfds@,
                    new_evtfds@,
                    old_idx as int,
                    new_idx as int,
                );
                assert(emitted + next =~= whole);
                lemma_prefix_of_whole(done, emitted, next, whole, all);
                lemma_between(log@, log0, n, done + emitted, all);
                lemma_grows(log0, n, done, emitted);
            }
        }
        proof {
            assert(emitted =~= whole);
        }
        Ok(())
    }

    /// Works out the event descriptors that are active under the flat
    /// view in force, tells the listeners of every descriptor that goes
    /// or comes, and takes the new descriptors as the active ones. For
    /// each flat range, a descriptor of the owner is active where any of
    /// its addresses lies in the range.
    fn update_ioeventfds(
        &mut self,
        Ghost(log0): Ghost<Seq<Notification>>,
        Ghost(done): Ghost<Seq<Request>>,
        Ghost(all): Ghost<Seq<Request>>,
    ) -> (r: Result<(), Error>)
        requires
            old(self).wf(),
            old(self).delivered() == log0 + notifications(old(self).listeners().len(), done),
            (done + ioeventfds_pass(
                old(self).active(),
                active_ioeventfds(old(self).flat(), old(self).flat().len() as int),
                0,
                0,
            )).is_prefix_of(all),
        ensures
            final(self).wf(),
            final(self).root_view() == old(self).root_view(),
            final(self).flat() == old(self).flat(),
            final(self).priorities() == old(self).priorities(),
            final(self).listeners() == old(self).listeners(),
            old(self).delivered().is_prefix_of(final(self).delivered()),
            final(self).delivered().is_prefix_of(
                log0 + notifications(old(self).listeners().len(), all),
            ),
            r is Ok ==> final(self).active() == active_ioeventfds(
                old(self).flat(),
                old(self).flat().len() as int,
            ) && final(self).delivered() == log0 + notifications(
                old(self).listeners().len(),
                done + ioeventfds_pass(
                    old(self).active(),
                    active_ioeventfds(old(self).flat(), old(self).flat().len() as int),
                    0,
                    0,
                ),
            ),
            r is Err ==> final(self).active() == old(self).active(),
            old(self).listeners().len() == 0 ==> r is Ok,
            r is Err ==> final(self).delivered().len() > old(self).delivered().len() && r == Err::<
                (),
                Error,
            >(failure_of(final(self).delivered().last().request)),
            r matches Err(e) ==> e matches Error::UpdateTopology(_, _, RegionType::IO),
    {
        let mut ioeventfds: Vec<RegionIoEventFd> = Vec::new();
        let mut i: usize = 0;
        while i < self.flat_view.0.len()
            invariant
                i <= self.flat_view.0.len(),
                view_wf(self.flat_view@),
                ioeventfds@ == active_ioeventfds(self.flat_view@, i as int),
            decreases self.flat_view.0.len() - i,
        {
            let fr = &self.flat_view.0[i];
            proof {
                assert(self.flat_view@[i as int] == fr@);
                assert(fr@.range_wf());
            }
            let region_base: u64 = fr.addr_range.base.0 - fr.offset_in_region;
            let fds = fr.owner.ioeventfds();
            let ghost before = ioeventfds@;
            let mut k: usize = 0;
            while k < fds.len()
                invariant
                    k <= fds.len(),
                    fds@ == fr@.owner.io_evtfds,
                    region_base == fr@.region_base(),
                    ioeventfds@ == before + visible_ioeventfds(fr@, k as int),
                decreases fds.len() - k,
            {
                let evtfd = fds[k];
                match evtfd.addr_range.base.0.checked_add(region_base) {
                    Some(at) => {
                        let moved = RegionIoEventFd {
                            fd: evtfd.fd,
                            addr_range: AddressRange {
                                base: GuestAddress(at),
                                size: evtfd.addr_range.size,
                            },
                            data_match: evtfd.data_match,
                            data: evtfd.data,
                        };
                        if fr.addr_range.find_intersection(moved.addr_range).is_some() {
                            ioeventfds.push(moved);
                        }
                    },
                    None => {},
                }
                proof {
                    assert(ioeventfds@ =~= before + visible_ioeventfds(fr@, k + 1));
                }
                k += 1;
            }
            i += 1;
        }
        let outcome = Self::update_ioeventfds_pass(
            &self.listeners,
            &mut self.delivered,
            &self.ioeventfds,
            &ioeventfds,
            Ghost(log0),
            Ghost(done),
            Ghost(all),
        );
        proof {
            lemma_prefix_chain(
                old(self).delivered(),
                old(self).delivered(),
                self.delivered@,
            );
        }
        match outcome {
            Err(e) => Err(e),
            Ok(()) => {
                self.ioeventfds = ioeventfds;
                Ok(())
            },
        }
    }

    /// Renders the region tree anew and brings the listeners from the old
    /// flat view to the new one: first every range that goes, to the
    /// listeners in descending order of priority; then every range that
    /// comes, in ascending order; then the new view takes the place of
    /// the old one, and the event descriptors follow.
    ///
    /// Fails as rendering fails, with nothing changed and no listener
    /// told; and at the first listener that fails, with the listeners
    /// told so far and no more, and with an `UpdateTopology` failure that
    /// names the range or the descriptor that the listener refused.
    /// Where no request is due, no listener is asked and the update
    /// succeeds.
    pub fn update_topology(&mut self) -> (r: Result<(), Error>)
        requires
            old(self).wf(),
        ensures
            final(self).wf(),
            final(self).root_view() == old(self).root_view(),
            final(self).priorities() == old(self).priorities(),
            final(self).listeners() == old(self).listeners(),
            final(self).follows(old(self).flat(), old(self).active(), old(self).delivered(), r),
    {
        let addr_range = AddressRange::new(GuestAddress(0), self.root.size());
        let new_fv = match self.root.generate_flatview(GuestAddress(0), addr_range) {
            Ok(v) => v,
            Err(e) => {
                return Err(e);
            },
        };
        let ghost n = self.listeners@.len();
        let ghost log0 = self.delivered@;
        let ghost deletes = topology_pass(self.flat_view@, new_fv@, 0, 0, false);
        let ghost adds = topology_pass(self.flat_view@, new_fv@, 0, 0, true);
        let ghost evtfds = ioeventfds_pass(
            self.ioeventfds@,
            active_ioeventfds(new_fv@, new_fv@.len() as int),
            0,
            0,
        );
        let ghost regions = deletes + adds;
        let ghost all = regions + evtfds;
        let ghost none = Seq::<Request>::empty();
        proof {
            assert(log0 + notifications(n, none) =~= log0);
            assert(none + deletes =~= deletes);
            assert(deletes =~= regions.subrange(0, deletes.len() as int));
            assert(regions =~= all.subrange(0, regions.len() as int));
            lemma_between(log0 + notifications(n, regions), log0, n, regions, all);
        }
        match Self::update_topology_pass(
            &self.listeners,
            &mut self.delivered,
            &self.flat_view,
            &new_fv,
            false,
            Ghost(log0),
            Ghost(none),
            Ghost(regions),
        ) {
            Err(e) => {
                proof {
                    lemma_prefix_chain(
                        self.delivered@,
                        log0 + notifications(n, regions),
                        log0 + notifications(n, all),
                    );
                }
                return Err(e);
            },
            Ok(()) => {},
        }
        match Self::update_topology_pass(
            &self.listeners,
            &mut self.delivered,
            &self.flat_view,
            &new_fv,
            true,
            Ghost(log0),
            Ghost(deletes),
            Ghost(regions),
        ) {
            Err(e) => {
                proof {
                    lemma_grows(log0, n, none, deletes);
                    lemma_prefix_chain(
                        log0,
                        log0 + notifications(n, deletes),
                        self.delivered@,
                    );
                    lemma_prefix_chain(
                        self.delivered@,
                        log0 + notifications(n, regions),
                        log0 + notifications(n, all),
                    );
                }
                return Err(e);
            },
            Ok(()) => {},
        }
        self.flat_view = new_fv;
        let ghost mid = self.delivered@;
        let outcome = self.update_ioeventfds(Ghost(log0), Ghost(regions), Ghost(all));
        proof {
            lemma_grows(log0, n, none, regions);
            lemma_prefix_chain(log0, mid, self.delivered@);
        }
        outcome
    }

    /// Makes `change` to the first region of the tree, in the order of
    /// rendering, that `id` names. After a change that can move the flat
    /// view (any but one of priority or of event descriptors) the flat
    /// view is rendered anew and the listeners are brought up to date.
    ///
    /// Fails with `NoSuchRegion` where `id` names no region, as the
    /// change fails on the region, and as bringing the listeners up to
    /// date fails.
    pub fn change_region(&mut self, id: u64, change: &RegionChange) -> (r: Result<(), Error>)
        requires
            old(self).wf(),
        ensures
            final(self).wf(),
            old(self).changes(final(self), id, change@, r),
    {
        match self.root.change(id, change) {
            None => Err(Error::NoSuchRegion(id)),
            Some(Err(e)) => Err(e),
            Some(Ok(())) => {
                match change {
                    RegionChange::Priority(_) | RegionChange::IoEventFds(_) => Ok(()),
                    _ => self.update_topology(),
                }
            },
        }
    }

    /// Adds `child` at `offset` to the container that `parent` names, and
    /// brings the listeners up to date.
    ///
    /// Fails as `change_region` does with the change `AddSubregion`.
    pub fn add_subregion(&mut self, parent: u64, child: Region, offset: u64) -> (r: Result<
        (),
        Error,
    >)
        requires
            old(self).wf(),
        ensures
            final(self).wf(),
            old(self).changes(
                final(self),
                parent,
                RegionChangeView::AddSubregion(child@, offset),
                r,
            ),
    {
        self.change_region(parent, &RegionChange::AddSubregion(child, offset))
    }

    /// Removes the region `child` from the container that `parent` names,
    /// and brings the listeners up to date.
    ///
    /// Fails as `change_region` does with the change `DeleteSubregion`.
    pub fn delete_subregion(&mut self, parent: u64, child: &Region) -> (r: Result<(), Error>)
        requires
            old(self).wf(),
        ensures
            final(self).wf(),
            old(self).changes(
                final(self),
                parent,
                RegionChangeView::DeleteSubregion(child@.id, child@.region_type, child@.offset),
                r,
            ),
    {
        self.change_region(
            parent,
            &RegionChange::DeleteSubregion(child.id(), child.region_type(), child.offset().0),
        )
    }

    /// Switches the ROM device that `id` names between read-only mode and
    /// callback mode, and brings the listeners up to date.
    ///
    /// Fails as `change_region` does with the change `Romd`.
    pub fn set_rom_device_romd(&mut self, id: u64, read_only: bool) -> (r: Result<(), Error>)
        requires
            old(self).wf(),
        ensures
            final(self).wf(),
            old(self).changes(final(self), id, RegionChangeView::Romd(read_only), r),
    {
        self.change_region(id, &RegionChange::Romd(read_only))
    }

    /// Moves the region that `id` names to `offset` in its parent, and
    /// brings the listeners up to date.
    ///
    /// Fails as `change_region` does with the change `Offset`.
    pub fn set_offset(&mut self, id: u64, offset: GuestAddress) -> (r: Result<(), Error>)
        requires
            old(self).wf(),
        ensures
            final(self).wf(),
            old(self).changes(final(self), id, RegionChangeView::Offset(offset.0), r),
    {
        self.change_region(id, &RegionChange::Offset(offset))
    }

    /// Gives the region that `id` names the priority `prior`. The flat
    /// view stays as it is.
    ///
    /// Fails with `NoSuchRegion` where `id` names no region.
    pub fn set_priority(&mut self, id: u64, prior: i32) -> (r: Result<(), Error>)
        requires
            old(self).wf(),
        ensures
            final(self).wf(),
            old(self).changes(final(self), id, RegionChangeView::Priority(prior), r),
    {
        self.change_region(id, &RegionChange::Priority(prior))
    }

    /// Replaces the event descriptors declared on the region that `id`
    /// names. The active descriptors follow with the next change of
    /// topology.
    ///
    /// Fails with `NoSuchRegion` where `id` names no region.
    pub fn set_ioeventfds(&mut self, id: u64, new_fds: &Vec<RegionIoEventFd>) -> (r: Result<
        (),
        Error,
    >)
        requires
            old(self).wf(),
        ensures
            final(self).wf(),
            old(self).changes(final(self), id, RegionChangeView::IoEventFds(new_fds@), r),
    {
        let mut fds: Vec<RegionIoEventFd> = Vec::new();
        let mut i: usize = 0;
        while i < new_fds.len()
            invariant
                i <= new_fds.len(),
                fds@ == new_fds@.subrange(0, i as int),
            decreases new_fds.len() - i,
        {
            fds.push(new_fds[i]);
            proof {
                assert(fds@ =~= new_fds@.subrange(0, i + 1));
            }
            i += 1;
        }
        proof {
            assert(fds@ =~= new_fds@);
        }
        self.change_region(id, &RegionChange::IoEventFds(fds))
    }

    /// A new address space over the tree `root`, with its flat view where
    /// the root has children, and with no listener.
    ///
    /// Fails as rendering the tree fails.
    pub fn new(root: Region) -> (r: Result<AddressSpace<L>, Error>)
        ensures
            match (if root@.subregions.len() == 0 {
                Ok(Seq::empty())
            } else {
                flat_view_of(root@, 0, root_range(root@))
            }) {
                Ok(v) => r matches Ok(space) && space.wf() && space.root_view() == root@
                    && space.flat() == v && space.active() == active_ioeventfds(
                    v,
                    v.len() as int,
                ) && space.priorities() == Seq::<i32>::empty() && space.delivered() == Seq::<
                    Notification,
                >::empty(),
                Err(e) => r matches Err(err) && err == e,
            },
    {
        let mut space = AddressSpace {
            root,
            flat_view: FlatView::default(),
            listeners: Vec::new(),
            priorities: Vec::new(),
            ioeventfds: Vec::new(),
            delivered: Ghost(Seq::empty()),
        };
        if space.root.subregions().len() > 0 {
            proof {
                match flat_view_of(root@, 0, root_range(root@)) {
                    Ok(v) => {
                        lemma_notifications_none(
                            update_requests(space.flat(), space.active(), v),
                        );
                    },
                    Err(e) => {},
                }
            }
            match space.update_topology() {
                Err(e) => {
                    return Err(e);
                },
                Ok(()) => {},
            }
        }
        Ok(space)
    }

    /// Tells `listener` of every range of `view` from the first on, with
    /// requests of type `req_type`, up to the first that it refuses;
    /// `place` is where the listener stands, or will stand, in the
    /// registry.
    fn replay_view(
        listener: &L,
        log: &mut Ghost<Seq<Notification>>,
        view: &FlatView,
        req_type: ListenerReqType,
        Ghost(place): Ghost<int>,
    ) -> (r: Result<(), Error>)
        ensures
            exists|m: int|
                0 <= m <= view@.len() && final(log)@ == old(log)@ + (#[trigger] replay(
                    place,
                    req_type,
                    view@,
                    m,
                )) && (r is Ok ==> m == view@.len()) && (r is Err ==> m > 0),
    {
        let ghost log0 = log@;
        let mut i: usize = 0;
        proof {
            assert(log0 + replay(place, req_type, view@, 0) =~= log0);
        }
        while i < view.0.len()
            invariant
                i <= view.0.len(),
                log0 == old(log)@,
                log@ == log0 + replay(place, req_type, view@, i as int),
            decreases view.0.len() - i,
        {
            let fr = &view.0[i];
            let outcome = listener.handle_request(Some(fr), None, req_type);
            proof {
                assert(view@[i as int] == fr@);
                assert(log0 + replay(place, req_type, view@, i + 1) =~= (log0 + replay(
                    place,
                    req_type,
                    view@,
                    i as int,
                )).push(
                    Notification {
                        listener: place,
                        request: Request { req_type, range: Some(fr@), evtfd: None },
                    },
                ));
            }
            *log = Ghost(
                log@.push(
                    Notification {
                        listener: place,
                        request: Request { req_type, range: Some(fr@), evtfd: None },
                    },
                ),
            );
            i += 1;
            match outcome {
                Err(e) => {
                    return Err(e);
                },
                Ok(()) => {},
            }
        }
        Ok(())
    }

    /// Takes `listener` into the registry. The listener is first told of
    /// every range of the flat view in force, as ranges that come, and
    /// enabled; it then stands behind every listener whose priority is
    /// not above its own, so that the registry stays in ascending order
    /// of priority and listeners of one priority stand in the order in
    /// which they came.
    ///
    /// Fails as the listener refuses a range; it is then not registered.
    pub fn register_listener(&mut self, listener: L) -> (r: Result<(), Error>)
        requires
            old(self).wf(),
        ensures
            final(self).wf(),
            final(self).root_view() == old(self).root_view(),
            final(self).flat() == old(self).flat(),
            final(self).active() == old(self).active(),
            r is Ok ==> exists|place: int|
                (#[trigger] registered_at(old(self).priorities(), final(self).priorities(), place))
                    && final(self).listeners() == old(self).listeners().insert(
                    place,
                    final(self).listeners()[place],
                ) && final(self).delivered() == old(self).delivered() + replay(
                    place,
                    ListenerReqType::AddRegion,
                    old(self).flat(),
                    old(self).flat().len() as int,
                ),
            r is Err ==> final(self).priorities() == old(self).priorities() && final(self).listeners() == old(self).listeners(),
            r is Err ==> exists|place: int, m: int|
                0 <= place <= old(self).listeners().len() && 0 < m <= old(self).flat().len()
                    && final(self).delivered() == old(self).delivered() + (#[trigger] replay(
                    place,
                    ListenerReqType::AddRegion,
                    old(self).flat(),
                    m,
                )),
            old(self).delivered().is_prefix_of(final(self).delivered()),
            old(self).flat().len() == 0 ==> r is Ok,
    {
        let mut listener = listener;
        let priority: i32 = listener.priority();
        let mut place: usize = 0;
        while place < self.priorities.len() && self.priorities[place] <= priority
            invariant
                place <= self.priorities.len(),
                forall|k: int| 0 <= k < place ==> self.priorities@[k] <= priority,
            decreases self.priorities.len() - place,
        {
            place += 1;
        }
        let outcome = Self::replay_view(
            &listener,
            &mut self.delivered,
            &self.flat_view,
            ListenerReqType::AddRegion,
            Ghost(place as int),
        );
        let ghost m = choose|m: int|
            0 <= m <= self.flat_view@.len() && self.delivered@ == old(self).delivered@ + (
            #[trigger] replay(place as int, ListenerReqType::AddRegion, self.flat_view@, m)) && (
            outcome is Ok ==> m == self.flat_view@.len()) && (outcome is Err ==> m > 0);
        proof {
            assert(old(self).delivered@ =~= self.delivered@.subrange(
                0,
                old(self).delivered@.len() as int,
            ));
        }
        match outcome {
            Err(e) => {
                proof {
                    assert(self.delivered() == old(self).delivered() + replay(
                        place as int,
                        ListenerReqType::AddRegion,
                        old(self).flat(),
                        m,
                    ));
                }
                return Err(e);
            },
            Ok(()) => {},
        }
        listener.enable();
        self.listeners.insert(place, listener);
        self.priorities.insert(place, priority);
        proof {
            let before = old(self).priorities@;
            let after = self.priorities@;
            assert(after[place as int] == priority);
            assert forall|k: int| place <= k < before.len() implies before[k] > priority by {
                assert(before[place as int] <= before[k]);
            }
            assert forall|i: int, j: int| 0 <= i < j < after.len() implies after[i] <= after[j] by {
                if i < place && j > place {
                    assert(after[i] == before[i] && after[j] == before[j - 1]);
                } else if i > place {
                    assert(after[i] == before[i - 1] && after[j] == before[j - 1]);
                } else if i == place {
                    assert(after[j] == before[j - 1]);
                }
            }
            assert(after =~= before.insert(place as int, after[place as int]));
            assert(registered_at(old(self).priorities(), self.priorities(), place as int));
            assert(self.listeners() == old(self).listeners().insert(
                place as int,
                self.listeners()[place as int],
            ));
            assert(self.delivered() == old(self).delivered() + replay(
                place as int,
                ListenerReqType::AddRegion,
                old(self).flat(),
                old(self).flat().len() as int,
            ));
        }
        Ok(())
    }

    /// Takes the listener at `index` out of the registry and hands it
    /// back, disabled. The listener is first told that every range of the
    /// flat view in force goes.
    ///
    /// Fails with `ListenerRequest` where no listener stands at `index`,
    /// and as the listener refuses a range; it then stays registered.
    pub fn unregister_listener(&mut self, index: usize) -> (r: Result<L, Error>)
        requires
            old(self).wf(),
        ensures
            final(self).wf(),
            final(self).root_view() == old(self).root_view(),
            final(self).flat() == old(self).flat(),
            final(self).active() == old(self).active(),
            index >= old(self).listeners().len() ==> (r matches Err(e) && e
                == Error::ListenerRequest(ListenerReqType::DeleteRegion)) && final(self).delivered() == old(self).delivered(),
            r is Ok ==> final(self).priorities() == old(self).priorities().remove(index as int)
                && final(self).listeners() == old(self).listeners().remove(index as int) && final(self).delivered() == old(self).delivered() + replay(
                index as int,
                ListenerReqType::DeleteRegion,
                old(self).flat(),
                old(self).flat().len() as int,
            ),
            r is Err ==> final(self).priorities() == old(self).priorities() && final(self).listeners() == old(self).listeners(),
            r is Err && index < old(self).listeners().len() ==> exists|m: int|
                0 < m <= old(self).flat().len() && final(self).delivered() == old(self).delivered()
                    + (#[trigger] replay(
                    index as int,
                    ListenerReqType::DeleteRegion,
                    old(self).flat(),
                    m,
                )),
            old(self).delivered().is_prefix_of(final(self).delivered()),
            index < old(self).listeners().len() && old(self).flat().len() == 0 ==> r is Ok,
    {
        if index >= self.listeners.len() {
            return Err(Error::ListenerRequest(ListenerReqType::DeleteRegion));
        }
        let outcome = Self::replay_view(
            &self.listeners[index],
            &mut self.delivered,
            &self.flat_view,
            ListenerReqType::DeleteRegion,
            Ghost(index as int),
        );
        let ghost m = choose|m: int|
            0 <= m <= self.flat_view@.len() && self.delivered@ == old(self).delivered@ + (
            #[trigger] replay(index as int, ListenerReqType::DeleteRegion, self.flat_view@, m))
                && (outcome is Ok ==> m == self.flat_view@.len()) && (outcome is Err ==> m > 0);
        proof {
            assert(old(self).delivered@ =~= self.delivered@.subrange(
                0,
                old(self).delivered@.len() as int,
            ));
        }
        match outcome {
            Err(e) => {
                proof {
                    assert(self.delivered() == old(self).delivered() + replay(
                        index as int,
                        ListenerReqType::DeleteRegion,
                        old(self).flat(),
                        m,
                    ));
                }
                return Err(e);
            },
            Ok(()) => {},
        }
        let mut listener = self.listeners.remove(index);
        self.priorities.remove(index);
        listener.disable();
        Ok(listener)
    }

    /// The root of the region tree.
    pub fn root(&self) -> (r: &Region)
        ensures
            r@ == self.root_view(),
    {
        &self.root
    }

    /// The flat view in force.
    pub fn flat_view(&self) -> (r: &FlatView)
        ensures
            r@ == self.flat(),
    {
        &self.flat_view
    }

    /// The listeners, in the order of the registry.
    pub fn registered(&self) -> (r: &Vec<L>)
        ensures
            r@ == self.listeners(),
    {
        &self.listeners
    }

    /// Priorities of the listeners, in the order of the registry.
    pub fn listener_priorities(&self) -> (r: &Vec<i32>)
        ensures
            r@ == self.priorities(),
    {
        &self.priorities
    }

    /// The event descriptors that are active.
    pub fn ioeventfds(&self) -> (r: &Vec<RegionIoEventFd>)
        ensures
            r@ == self.active(),
    {
        &self.ioeventfds
    }

    /// Host address of the guest address `addr`: that of the start of the
    /// owning region plus the distance of `addr` from it; nothing where
    /// no flat range holds `addr` or the owner has no host memory.
    pub fn get_host_address(&self, addr: GuestAddress) -> (r: Option<u64>)
        requires
            self.wf(),
        ensures
            r == host_address_at(self.flat(), addr.0),
    {
        self.flat_view.get_host_address(addr)
    }

    /// Whether `size` bytes at `addr` lie in one flat range of RAM.
    pub fn address_in_memory(&self, addr: GuestAddress, size: u64) -> (r: bool)
        requires
            self.wf(),
        ensures
            r == in_memory(self.flat(), addr.0, size),
    {
        self.flat_view.address_in_memory(addr, size)
    }

    /// The flat range around `addr`, for a caller to remember: its owner's
    /// type, its bounds, and the host address of its start.
    pub fn get_region_cache(&self, addr: GuestAddress) -> (r: Option<RegionCache>)
        requires
            self.wf(),
        ensures
            r == region_cache_at(self.flat(), addr.0),
    {
        self.flat_view.get_region_cache(addr)
    }

    /// End of the RAM range that ends last, or zero without RAM.
    pub fn memory_end_address(&self) -> (r: GuestAddress)
        requires
            self.wf(),
        ensures
            r.0 == ram_end(self.flat(), self.flat().len() as int),
    {
        self.flat_view.memory_end_address()
    }

    /// How to read `count` bytes at the guest address `addr`: as the
    /// region that owns `addr` reads them at the place of `addr` in it.
    ///
    /// Fails with `RegionNotFound` where no flat range holds `addr`, and
    /// as the read of the owner fails.
    pub fn read(&self, addr: GuestAddress, count: u64) -> (r: Result<RegionAccess, Error>)
        requires
            self.wf(),
        ensures
            r == access_plan(self.flat(), addr.0, count, false),
    {
        self.flat_view.read(addr, count)
    }

    /// How to write `count` bytes at the guest address `addr`: as the
    /// region that owns `addr` writes them at the place of `addr` in it.
    ///
    /// Fails with `RegionNotFound` where no flat range holds `addr`, and
    /// as the write of the owner fails.
    pub fn write(&self, addr: GuestAddress, count: u64) -> (r: Result<RegionAccess, Error>)
        requires
            self.wf(),
        ensures
            r == access_plan(self.flat(), addr.0, count, true),
    {
        self.flat_view.write(addr, count)
    }

    /// How to write the bytes of an object, `data`, at the guest address
    /// `addr`.
    ///
    /// Fails as a write of as many bytes fails.
    pub fn write_object(&self, data: &[u8], addr: GuestAddress) -> (r: Result<RegionAccess, Error>)
        requires
            self.wf(),
        ensures
            r == access_plan(self.flat(), addr.0, data@.len() as u64, true),
    {
        self.write(addr, data.len() as u64)
    }

    /// How to read the `size` bytes of an object at the guest address
    /// `addr`.
    ///
    /// Fails as a read of as many bytes fails.
    pub fn read_object(&self, addr: GuestAddress, size: usize) -> (r: Result<RegionAccess, Error>)
        requires
            self.wf(),
        ensures
            r == access_plan(self.flat(), addr.0, size as u64, false),
    {
        self.read(addr, size as u64)
    }
}

/// Round trip of a lookup: under a well-formed view, every address of a
/// range whose owner has host memory has the host address of the start
/// of the owner plus its distance from the guest address of that start;
/// and an address that no range holds has none.
pub proof fn lemma_host_address_round_trip(v: Seq<FlatRangeView>, i: int, addr: u64)
    requires
        view_wf(v),
        0 <= i < v.len(),
    ensures
        v[i].addr_range.contains(addr as int) ==> host_address_at(v, addr) == match v[i].owner.host_address() {
            Some(host) => Some((host + (addr - v[i].region_base())) as u64),
            None => None,
        },
        (forall|k: int| 0 <= k < v.len() ==> !(#[trigger] v[k]).addr_range.contains(addr as int))
            ==> host_address_at(v, addr) is None,
{
    if v[i].addr_range.contains(addr as int) {
        lemma_lookup_at_index(v, i, addr as int);
    }
    lemma_lookup_is_member(v, addr as int);
}

/// An update that changes nothing asks nothing: between a view with its
/// own active descriptors and the same view, no request is due.
pub proof fn lemma_update_without_change(v: Seq<FlatRangeView>, n: nat)
    ensures
        update_requests(v, active_ioeventfds(v, v.len() as int), v) == Seq::<Request>::empty(),
        notifications(n, update_requests(v, active_ioeventfds(v, v.len() as int), v)) == Seq::<
            Notification,
        >::empty(),
{
    crate::topology::lemma_topology_pass_same(v, 0, false);
    crate::topology::lemma_topology_pass_same(v, 0, true);
    crate::topology::lemma_ioeventfds_pass_same(active_ioeventfds(v, v.len() as int), 0);
    assert(update_requests(v, active_ioeventfds(v, v.len() as int), v) =~= Seq::<Request>::empty());
}

/// With no listener, no request reaches anyone.
pub proof fn lemma_notifications_none(requests: Seq<Request>)
    ensures
        notifications(0, requests) == Seq::<Notification>::empty(),
    decreases requests.len(),
{
    if requests.len() > 0 {
        lemma_notifications_none(requests.drop_last());
        assert(notifications(0, requests) =~= Seq::<Notification>::empty());
    }
}

/// Where a run of requests is the start of another, what it hands out is
/// the start of what the other hands out.
proof fn lemma_between(
    log: Seq<Notification>,
    log0: Seq<Notification>,
    n: nat,
    done: Seq<Request>,
    all: Seq<Request>,
)
    requires
        log == log0 + notifications(n, done),
        done.is_prefix_of(all),
    ensures
        log.is_prefix_of(log0 + notifications(n, all)),
{
    let rest = all.skip(done.len() as int);
    assert(all =~= done + rest);
    lemma_notifications_concat(n, done, rest);
    let whole = log0 + notifications(n, all);
    assert(whole =~= log + notifications(n, rest));
    assert(log =~= whole.subrange(0, log.len() as int));
}

/// What was handed out for a run of requests is still there once more
/// requests have been handed out.
proof fn lemma_grows(
    log0: Seq<Notification>,
    n: nat,
    done: Seq<Request>,
    emitted: Seq<Request>,
)
    ensures
        (log0 + notifications(n, done)).is_prefix_of(log0 + notifications(n, done + emitted)),
{
    lemma_notifications_concat(n, done, emitted);
    let a = log0 + notifications(n, done);
    let b = log0 + notifications(n, done + emitted);
    assert(b =~= a + notifications(n, emitted));
    assert(a =~= b.subrange(0, a.len() as int));
}

/// The start of the start of a run is a start of the run.
proof fn lemma_prefix_chain(a: Seq<Notification>, b: Seq<Notification>, c: Seq<Notification>)
    requires
        a.is_prefix_of(b) || a == b,
        b.is_prefix_of(c),
    ensures
        a.is_prefix_of(c),
{
    assert(a =~= c.subrange(0, a.len() as int));
}

/// The request at hand is the next of the whole run.
proof fn lemma_next_request(
    done: Seq<Request>,
    emitted: Seq<Request>,
    request: Request,
    rest: Seq<Request>,
    whole: Seq<Request>,
    all: Seq<Request>,
)
    requires
        emitted + rest == whole,
        rest.len() > 0,
        rest[0] == request,
        (done + whole).is_prefix_of(all),
    ensures
        (done + emitted).push(request).is_prefix_of(all),
{
    let x = (done + emitted).push(request);
    let dw = done + whole;
    assert(x =~= dw.subrange(0, x.len() as int));
    assert(x =~= all.subrange(0, x.len() as int));
}

/// What has been emitted of the whole run is a start of it.
proof fn lemma_prefix_of_whole(
    done: Seq<Request>,
    emitted: Seq<Request>,
    next: Seq<Request>,
    whole: Seq<Request>,
    all: Seq<Request>,
)
    requires
        emitted + next == whole,
        (done + whole).is_prefix_of(all),
    ensures
        (done + emitted).is_prefix_of(all),
{
    let x = done + emitted;
    let dw = done + whole;
    assert(x =~= dw.subrange(0, x.len() as int));
    assert(x =~= all.subrange(0, x.len() as int));
}

} // verus!
