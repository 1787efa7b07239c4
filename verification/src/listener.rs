//! Observers of the flat view, and the bookkeeping of hypervisor memory
//! slots and event descriptors.

use vstd::prelude::*;

use crate::address::{spec_round_down, spec_round_up, AddressRange, GuestAddress};
use crate::error::Error;
use crate::flat_view::{FlatRange, FlatRangeView};
use crate::region::{RegionIoEventFd, RegionType};

verus! {

/// What a listener is asked to do.
#[derive(Debug, Copy, Clone, PartialEq, Eq, Structural)]
pub enum ListenerReqType {
    /// A flat range became visible.
    AddRegion,
    /// A flat range went away.
    DeleteRegion,
    /// An event descriptor became active.
    AddIoeventfd,
    /// An event descriptor went away.
    DeleteIoeventfd,
}

/// An observer of an address space. The address space tells it of every
/// flat range and every event descriptor that comes or goes.
pub trait Listener {
    /// The rank of the listener; it is read once, when the listener is
    /// registered.
    fn priority(&self) -> i32;

    /// Whether the listener takes requests. A listener that does not say
    /// otherwise takes them.
    fn enabled(&self) -> (r: bool)
        default_ensures
            r,
    {
        true
    }

    /// Called once the listener has been told of every flat range that
    /// exists at its registration.
    fn enable(&mut self) {
    }

    /// Called once the listener has been told that every flat range goes,
    /// before it leaves the address space.
    fn disable(&mut self) {
    }

    /// Serves one request: `range` is given with a region request and
    /// `evtfd` with an event descriptor request. A listener that does
    /// not say otherwise lets every request pass.
    fn handle_request(
        &self,
        range: Option<&FlatRange>,
        evtfd: Option<&RegionIoEventFd>,
        req_type: ListenerReqType,
    ) -> (r: Result<(), Error>)
        default_ensures
            r == Ok::<(), Error>(()),
    {
        Ok(())
    }
}

/// Flag of a memory region that the guest may only read.
pub const MEM_READ_ONLY: u32 = 2;

/// Priority of the hypervisor listeners: above that of ordinary device
/// listeners, so that the hypervisor learns of a range that comes after
/// them and of a range that goes before them.
pub const KVM_LISTENER_PRIORITY: i32 = 10;

/// One memory slot of the hypervisor. A slot of size zero is free.
#[derive(Copy, Clone, Debug, PartialEq, Eq, Structural)]
pub struct MemSlot {
    /// Number of the slot.
    pub index: u32,
    /// Guest address of the memory in the slot.
    pub guest_addr: u64,
    /// Length of the memory in the slot.
    pub size: u64,
    /// Host address of the memory in the slot.
    pub host_addr: u64,
    /// Flags of the slot.
    pub flag: u32,
}

impl Default for MemSlot {
    fn default() -> (r: MemSlot)
        ensures
            r == MemSlot::free(),
    {
        MemSlot { index: 0, guest_addr: 0, size: 0, host_addr: 0, flag: 0 }
    }
}

impl MemSlot {
    /// A free slot that has never been used.
    pub open spec fn free() -> MemSlot {
        MemSlot { index: 0, guest_addr: 0, size: 0, host_addr: 0, flag: 0 }
    }

    /// The guest addresses of the slot.
    pub open spec fn range(self) -> AddressRange {
        AddressRange { base: GuestAddress(self.guest_addr), size: self.size }
    }
}

/// The arguments of one "set user memory region" call to the hypervisor.
/// A memory size of zero releases the slot.
#[derive(Copy, Clone, Debug, PartialEq, Eq, Structural)]
pub struct KvmMemoryRegion {
    /// Number of the slot, with the number of the address space in the
    /// upper half.
    pub slot: u32,
    /// Guest address of the memory.
    pub guest_phys_addr: u64,
    /// Length of the memory.
    pub memory_size: u64,
    /// Host address of the memory.
    pub userspace_addr: u64,
    /// Flags of the region.
    pub flags: u32,
}

/// What the hypervisor is to be asked after a region request.
#[derive(Copy, Clone, Debug, PartialEq, Eq, Structural)]
pub enum SlotRequest {
    /// Nothing.
    Nothing,
    /// Register the memory; a slot has been claimed for it, and is
    /// released again if the hypervisor refuses.
    Register(KvmMemoryRegion),
    /// Release the slot; it has been freed.
    Release(KvmMemoryRegion),
    /// Release the slot; it has been freed, and a refusal of the
    /// hypervisor is of no account.
    ReleaseQuietly(KvmMemoryRegion),
}

/// The value that a write must carry to trigger an event.
#[derive(Copy, Clone, Debug, PartialEq, Eq, Structural)]
pub enum DataMatch {
    /// Any value.
    Any,
    /// This value, two bytes wide.
    Word(u16),
    /// This value, four bytes wide.
    DWord(u32),
    /// This value, eight bytes wide.
    QWord(u64),
}

/// The arguments of one call that registers an event descriptor with the
/// hypervisor, or releases it.
#[derive(Copy, Clone, Debug, PartialEq, Eq, Structural)]
pub struct IoEventRequest {
    /// The event descriptor.
    pub fd: i32,
    /// Whether the address is a port rather than a memory address.
    pub port_io: bool,
    /// The address of the triggering write.
    pub addr: u64,
    /// The value of the triggering write.
    pub datamatch: DataMatch,
    /// Whether the descriptor is registered rather than released.
    pub register: bool,
}

/// What the hypervisor is to be asked after a request to a listener.
#[derive(Copy, Clone, Debug, PartialEq, Eq, Structural)]
pub enum KvmRequest {
    /// A call about a memory slot, or none.
    Slot(SlotRequest),
    /// A call about an event descriptor.
    IoEvent(IoEventRequest),
}

/// Index of the first slot from the `from`-th on whose addresses overlap
/// `range`.
pub open spec fn first_overlap(slots: Seq<MemSlot>, range: AddressRange, from: int) -> Option<int>
    decreases slots.len() - from,
{
    if from < 0 || from >= slots.len() {
        None
    } else if slots[from].range().overlaps(range) {
        Some(from)
    } else {
        first_overlap(slots, range, from + 1)
    }
}

/// Index of the first free slot from the `from`-th on.
pub open spec fn first_free(slots: Seq<MemSlot>, from: int) -> Option<int>
    decreases slots.len() - from,
{
    if from < 0 || from >= slots.len() {
        None
    } else if slots[from].size == 0 {
        Some(from)
    } else {
        first_free(slots, from + 1)
    }
}

/// Index of the first slot from the `from`-th on that holds `size` bytes
/// at `addr`.
pub open spec fn first_match(slots: Seq<MemSlot>, addr: u64, size: u64, from: int) -> Option<int>
    decreases slots.len() - from,
{
    if from < 0 || from >= slots.len() {
        None
    } else if slots[from].guest_addr == addr && slots[from].size == size {
        Some(from)
    } else {
        first_match(slots, addr, size, from + 1)
    }
}

/// Whether no two slots share a guest address.
pub open spec fn slots_disjoint(slots: Seq<MemSlot>) -> bool {
    forall|i: int, j: int|
        0 <= i < slots.len() && 0 <= j < slots.len() && i != j ==> !(#[trigger] slots[i]).range().overlaps(
            (#[trigger] slots[j]).range(),
        )
}

/// The `index`-th slot filled with `size` bytes at `guest_addr`, backed
/// by host memory at `host_addr`.
pub open spec fn claimed(slots: Seq<MemSlot>, index: int, guest_addr: u64, size: u64, host_addr: u64) -> Seq<
    MemSlot,
> {
    slots.update(
        index,
        MemSlot { index: index as u32, guest_addr, size, host_addr, flag: slots[index].flag },
    )
}

/// The `index`-th slot set free.
pub open spec fn released(slots: Seq<MemSlot>, index: int) -> Seq<MemSlot> {
    slots.update(index, MemSlot { size: 0, ..slots[index] })
}

/// The range `range` cut down to whole pages of `alignment` bytes: its
/// start rounded up and its length rounded down. An error where the
/// start cannot be rounded up (`AddrAlignUp`) or no whole page is left
/// (`MemSlotEmpty`).
pub open spec fn aligned(range: AddressRange, alignment: u64) -> Result<AddressRange, Error> {
    match spec_round_up(range.base.0, alignment) {
        None => Err(Error::AddrAlignUp(range.base.0, alignment)),
        Some(start) => {
            let lost = start - range.base.0;
            if lost > range.size {
                Err(Error::MemSlotEmpty(range.base.0, range.size, alignment))
            } else {
                match spec_round_down((range.size - lost) as u64, alignment) {
                    Some(size) => if size > 0 {
                        Ok(AddressRange { base: GuestAddress(start), size })
                    } else {
                        Err(Error::MemSlotEmpty(range.base.0, range.size, alignment))
                    },
                    None => Err(Error::MemSlotEmpty(range.base.0, range.size, alignment)),
                }
            }
        },
    }
}

/// Whether a region of this type takes a memory slot.
pub open spec fn takes_slot(region_type: RegionType) -> bool {
    region_type == RegionType::Ram || region_type == RegionType::RomDevice || region_type
        == RegionType::RamDevice
}

/// The number of a slot as the hypervisor takes it.
pub open spec fn slot_number(index: u32, as_id: u32) -> u32 {
    index | (as_id << 16)
}

/// The value of the triggering write of a descriptor, or the failure
/// `IoEventFdLength` where a value is to be matched and the width is not
/// 2, 4 or 8 bytes.
pub open spec fn datamatch_of(evtfd: RegionIoEventFd) -> Result<DataMatch, Error> {
    if !evtfd.data_match {
        Ok(DataMatch::Any)
    } else if evtfd.addr_range.size == 2 {
        Ok(DataMatch::Word((evtfd.data % 0x1_0000) as u16))
    } else if evtfd.addr_range.size == 4 {
        Ok(DataMatch::DWord((evtfd.data % 0x1_0000_0000) as u32))
    } else if evtfd.addr_range.size == 8 {
        Ok(DataMatch::QWord(evtfd.data))
    } else {
        Err(Error::IoEventFdLength(evtfd.addr_range.size))
    }
}

/// The call about the descriptor `evtfd`, or why none can be made.
pub open spec fn ioevent_request(evtfd: RegionIoEventFd, port_io: bool, register: bool) -> Result<
    IoEventRequest,
    Error,
> {
    match datamatch_of(evtfd) {
        Ok(datamatch) => Ok(
            IoEventRequest { fd: evtfd.fd, port_io, addr: evtfd.addr_range.base.0, datamatch, register },
        ),
        Err(e) => Err(e),
    }
}

/// The value of the triggering write of `evtfd`.
fn datamatch(evtfd: &RegionIoEventFd) -> (r: Result<DataMatch, Error>)
    ensures
        r == datamatch_of(*evtfd),
{
    if !evtfd.data_match {
        return Ok(DataMatch::Any);
    }
    let length: u64 = evtfd.addr_range.size;
    if length == 2 {
        Ok(DataMatch::Word((evtfd.data % 0x1_0000) as u16))
    } else if length == 4 {
        Ok(DataMatch::DWord((evtfd.data % 0x1_0000_0000) as u32))
    } else if length == 8 {
        Ok(DataMatch::QWord(evtfd.data))
    } else {
        Err(Error::IoEventFdLength(length))
    }
}

/// The aligned range lies within the range that was aligned, and starts
/// and ends on a page boundary.
pub proof fn lemma_aligned_within(range: AddressRange, alignment: u64)
    ensures
        aligned(range, alignment) matches Ok(a) ==> range.start() <= a.start() && a.end()
            <= range.end() && a.size > 0 && alignment > 0 && a.base.0 % alignment == 0 && a.size
            % alignment == 0,
{
    if alignment > 0 {
        let a = alignment as int;
        let o = range.base.0 as int;
        assert((o + a - o % a) % a == 0 && o + a - o % a >= o) by (nonlinear_arith)
            requires
                a > 0,
                o >= 0,
        ;
        crate::address::lemma_round_up_is_least_multiple(range.base.0, alignment, o + a - o % a);
        match spec_round_up(range.base.0, alignment) {
            Some(start) => {
                let lost = start - range.base.0;
                if lost <= range.size {
                    crate::address::lemma_round_down_is_greatest_multiple(
                        (range.size - lost) as u64,
                        alignment,
                    );
                }
            },
            None => {},
        }
    }
}

/// No double claim within one view: the whole pages of two ranges of a
/// well-formed view share no address, so that registering every range of
/// a view, once the ranges of the view before it are released, claims no
/// guest address twice.
pub proof fn lemma_pages_of_a_view_are_apart(
    v: Seq<FlatRangeView>,
    i: int,
    j: int,
    page_size: u64,
)
    requires
        crate::flat_view::view_wf(v),
        0 <= i < v.len(),
        0 <= j < v.len(),
        i != j,
    ensures
        (aligned(v[i].addr_range, page_size) matches Ok(a) && (aligned(
            v[j].addr_range,
            page_size,
        ) matches Ok(b) && a.overlaps(b))) == false,
{
    lemma_aligned_within(v[i].addr_range, page_size);
    lemma_aligned_within(v[j].addr_range, page_size);
    if i < j {
        assert(v[i].addr_range.end() <= v[j].addr_range.start());
    } else {
        assert(v[j].addr_range.end() <= v[i].addr_range.start());
    }
}

/// Where no slot from the `from`-th on overlaps a range, the search for an
/// overlap finds none.
proof fn lemma_no_overlap_found(slots: Seq<MemSlot>, range: AddressRange, from: int)
    requires
        0 <= from,
        forall|i: int| from <= i < slots.len() ==> !(#[trigger] slots[i]).range().overlaps(range),
    ensures
        first_overlap(slots, range, from) is None,
    decreases slots.len() - from,
{
    if from < slots.len() {
        lemma_no_overlap_found(slots, range, from + 1);
    }
}

/// No transient overlap: where every slot in use lies within one of the
/// ranges `live`, and the range `range` shares no address with any of
/// them, the table takes `range` without meeting an overlap. Such are the
/// ranges that an update brings in, once it has released the ranges that
/// go: what is still live are ranges of the new view, which are apart
/// from every range that comes.
pub proof fn lemma_add_meets_no_overlap(
    slots: Seq<MemSlot>,
    as_id: u32,
    live: Seq<FlatRangeView>,
    range: FlatRangeView,
    page_size: u64,
)
    requires
        forall|i: int|
            0 <= i < slots.len() && (#[trigger] slots[i]).size > 0 ==> exists|k: int|
                0 <= k < live.len() && (#[trigger] live[k]).addr_range.start()
                    <= slots[i].range().start() && slots[i].range().end()
                    <= live[k].addr_range.end(),
        forall|k: int|
            0 <= k < live.len() ==> !(#[trigger] live[k]).addr_range.overlaps(range.addr_range),
    ensures
        !(added(slots, as_id, range, page_size).0 matches Err(Error::KvmSlotOverlap(_, _))),
{
    lemma_aligned_within(range.addr_range, page_size);
    match aligned(range.addr_range, page_size) {
        Ok(a) => {
            assert forall|i: int| 0 <= i < slots.len() implies !(
            #[trigger] slots[i]).range().overlaps(a) by {
                if slots[i].size > 0 {
                    let k = choose|k: int|
                        0 <= k < live.len() && (#[trigger] live[k]).addr_range.start()
                            <= slots[i].range().start() && slots[i].range().end()
                            <= live[k].addr_range.end();
                    assert(!live[k].addr_range.overlaps(range.addr_range));
                }
            }
            lemma_no_overlap_found(slots, a, 0);
        },
        Err(e) => {},
    }
}

/// The table of memory slots of a virtual machine, and what the
/// hypervisor has to be asked as flat ranges come and go. No two slots
/// ever hold the same guest address.
#[derive(Debug)]
pub struct KvmMemoryListener {
    /// Number of the address space that the table serves.
    as_id: u32,
    /// The slots, each at the place of its number.
    slots: Vec<MemSlot>,
}

impl KvmMemoryListener {
    /// The slots of the table.
    pub closed spec fn slots(&self) -> Seq<MemSlot> {
        self.slots@
    }

    /// Number of the address space that the table serves.
    pub closed spec fn as_id(&self) -> u32 {
        self.as_id
    }

    /// What holds of the table: its slots can be numbered in 32 bits, and
    /// no two of them share a guest address.
    pub open spec fn wf(&self) -> bool {
        &&& self.slots().len() <= u32::MAX
        &&& slots_disjoint(self.slots())
    }

    /// A table of `nr_slots` free slots.
    pub fn new(nr_slots: u32) -> (r: KvmMemoryListener)
        ensures
            r.wf(),
            r.as_id() == 0,
            r.slots() == Seq::new(nr_slots as nat, |i: int| MemSlot::free()),
    {
        let mut slots: Vec<MemSlot> = Vec::new();
        let mut i: u32 = 0;
        while i < nr_slots
            invariant
                i <= nr_slots,
                slots@ == Seq::new(i as nat, |k: int| MemSlot::free()),
            decreases nr_slots - i,
        {
            slots.push(MemSlot::default());
            proof {
                assert(slots@ =~= Seq::new((i + 1) as nat, |k: int| MemSlot::free()));
            }
            i += 1;
        }
        KvmMemoryListener { as_id: 0, slots }
    }

    /// The slots of the table.
    pub fn mem_slots(&self) -> (r: &Vec<MemSlot>)
        ensures
            r@ == self.slots(),
    {
        &self.slots
    }

    /// Claims the first free slot for `size` bytes at `guest_addr`,
    /// backed by host memory at `host_addr`, and returns its number.
    ///
    /// Fails with `KvmSlotOverlap` where a slot already holds one of the
    /// addresses, and with `NoAvailKvmSlot` where no slot is free.
    pub fn get_free_slot(&mut self, guest_addr: u64, size: u64, host_addr: u64) -> (r: Result<
        u32,
        Error,
    >)
        requires
            old(self).wf(),
        ensures
            final(self).wf(),
            final(self).as_id() == old(self).as_id(),
            ({
                let range = AddressRange { base: GuestAddress(guest_addr), size };
                match first_overlap(old(self).slots(), range, 0) {
                    Some(i) => r == Err::<u32, Error>(
                        Error::KvmSlotOverlap(range, old(self).slots()[i].range()),
                    ) && final(self).slots() == old(self).slots(),
                    None => match first_free(old(self).slots(), 0) {
                        Some(i) => r == Ok::<u32, Error>(i as u32) && final(self).slots()
                            == claimed(old(self).slots(), i, guest_addr, size, host_addr),
                        None => r == Err::<u32, Error>(
                            Error::NoAvailKvmSlot(old(self).slots().len() as usize),
                        ) && final(self).slots() == old(self).slots(),
                    },
                }
            }),
    {
        let range = AddressRange::new(GuestAddress(guest_addr), size);
        let mut i: usize = 0;
        while i < self.slots.len()
            invariant
                i <= self.slots.len(),
                self.slots@ == old(self).slots@,
                self.as_id == old(self).as_id,
                old(self).wf(),
                range == (AddressRange { base: GuestAddress(guest_addr), size }),
                first_overlap(self.slots@, range, 0) == first_overlap(self.slots@, range, i as int),
                forall|k: int| 0 <= k < i ==> !(#[trigger] self.slots@[k]).range().overlaps(range),
            decreases self.slots.len() - i,
        {
            let s = self.slots[i];
            let taken = AddressRange::new(GuestAddress(s.guest_addr), s.size);
            if taken.find_intersection(range).is_some() {
                return Err(Error::KvmSlotOverlap(range, taken));
            }
            i += 1;
        }
        let mut index: usize = 0;
        while index < self.slots.len()
            invariant
                index <= self.slots.len(),
                self.slots@ == old(self).slots@,
                self.as_id == old(self).as_id,
                old(self).wf(),
                range == (AddressRange { base: GuestAddress(guest_addr), size }),
                first_overlap(self.slots@, range, 0) is None,
                forall|k: int|
                    0 <= k < self.slots@.len() ==> !(#[trigger] self.slots@[k]).range().overlaps(
                        range,
                    ),
                first_free(self.slots@, 0) == first_free(self.slots@, index as int),
            decreases self.slots.len() - index,
        {
            if self.slots[index].size == 0 {
                let slot = MemSlot {
                    index: index as u32,
                    guest_addr,
                    size,
                    host_addr,
                    flag: self.slots[index].flag,
                };
                self.slots.set(index, slot);
                proof {
                    let before = old(self).slots@;
                    let after = self.slots@;
                    assert forall|a: int, b: int|
                        0 <= a < after.len() && 0 <= b < after.len() && a != b implies !(
                    #[trigger] after[a]).range().overlaps((#[trigger] after[b]).range()) by {
                        if a == index {
                            assert(!before[b].range().overlaps(range));
                        } else if b == index {
                            assert(!before[a].range().overlaps(range));
                        } else {
                            assert(!before[a].range().overlaps(before[b].range()));
                        }
                    }
                }
                return Ok(index as u32);
            }
            index += 1;
        }
        Err(Error::NoAvailKvmSlot(self.slots.len()))
    }

    /// Frees the first slot that holds `size` bytes at `addr`, and
    /// returns the slot as it is then.
    ///
    /// Fails with `NoMatchedKvmSlot` where no slot holds them.
    pub fn delete_slot(&mut self, addr: u64, size: u64) -> (r: Result<MemSlot, Error>)
        requires
            old(self).wf(),
        ensures
            final(self).wf(),
            final(self).as_id() == old(self).as_id(),
            match first_match(old(self).slots(), addr, size, 0) {
                Some(i) => r == Ok::<MemSlot, Error>(MemSlot { size: 0, ..old(self).slots()[i] })
                    && final(self).slots() == released(old(self).slots(), i),
                None => r == Err::<MemSlot, Error>(Error::NoMatchedKvmSlot(addr, size)) && final(self).slots() == old(self).slots(),
            },
    {
        let mut i: usize = 0;
        while i < self.slots.len()
            invariant
                i <= self.slots.len(),
                self.slots@ == old(self).slots@,
                self.as_id == old(self).as_id,
                old(self).wf(),
                first_match(self.slots@, addr, size, 0) == first_match(
                    self.slots@,
                    addr,
                    size,
                    i as int,
                ),
            decreases self.slots.len() - i,
        {
            let s = self.slots[i];
            if s.guest_addr == addr && s.size == size {
                let freed = MemSlot {
                    index: s.index,
                    guest_addr: s.guest_addr,
                    size: 0,
                    host_addr: s.host_addr,
                    flag: s.flag,
                };
                self.slots.set(i, freed);
                proof {
                    let before = old(self).slots@;
                    let after = self.slots@;
                    assert forall|a: int, b: int|
                        0 <= a < after.len() && 0 <= b < after.len() && a != b implies !(
                    #[trigger] after[a]).range().overlaps((#[trigger] after[b]).range()) by {
                        assert(!before[a].range().overlaps(before[b].range()));
                    }
                }
                return Ok(freed);
            }
            i += 1;
        }
        Err(Error::NoMatchedKvmSlot(addr, size))
    }

    /// Cuts `range` down to whole pages of `alignment` bytes: the start
    /// is rounded up and the length rounded down.
    ///
    /// Fails with `AddrAlignUp` where the start cannot be rounded up, and
    /// with `MemSlotEmpty` where no whole page is left.
    pub fn align_mem_slot(range: AddressRange, alignment: u64) -> (r: Result<AddressRange, Error>)
        ensures
            r == aligned(range, alignment),
    {
        let aligned_addr = match range.base.align_up(alignment) {
            Some(a) => a,
            None => {
                return Err(Error::AddrAlignUp(range.base.0, alignment));
            },
        };
        proof {
            let a = alignment as int;
            let o = range.base.0 as int;
            assert(0 <= o % a < a) by (nonlinear_arith)
                requires
                    a > 0,
                    o >= 0,
            ;
        }
        let lost: u64 = aligned_addr.offset_from(range.base);
        let left: u64 = match range.size.checked_sub(lost) {
            Some(sz) => sz,
            None => {
                return Err(Error::MemSlotEmpty(range.base.0, range.size, alignment));
            },
        };
        match crate::address::round_down(left, alignment) {
            Some(sz) => {
                if sz > 0 {
                    Ok(AddressRange::new(aligned_addr, sz))
                } else {
                    Err(Error::MemSlotEmpty(range.base.0, range.size, alignment))
                }
            },
            None => Err(Error::MemSlotEmpty(range.base.0, range.size, alignment)),
        }
    }

    /// What a flat range that comes asks of the table and of the
    /// hypervisor. A range of a region without host memory asks nothing.
    /// A range of a ROM device in callback mode gives up its slot, as a
    /// range that goes does, and no failure comes of it. Any other range
    /// is cut down to whole pages of `page_size` bytes and claims the
    /// first free slot, and the hypervisor is to register it, read-only
    /// for a ROM device.
    ///
    /// Fails as the alignment fails and as the claim of a slot fails.
    pub fn add_region(&mut self, flat_range: &FlatRange, page_size: u64) -> (r: Result<
        SlotRequest,
        Error,
    >)
        requires
            old(self).wf(),
            flat_range@.range_wf(),
        ensures
            final(self).wf(),
            final(self).as_id() == old(self).as_id(),
            r == added(old(self).slots(), old(self).as_id(), flat_range@, page_size).0,
            final(self).slots() == added(
                old(self).slots(),
                old(self).as_id(),
                flat_range@,
                page_size,
            ).1,
    {
        let region_type = flat_range.owner.region_type();
        if region_type == RegionType::RomDevice {
            let romd = match flat_range.owner.get_rom_device_romd() {
                Some(b) => b,
                None => false,
            };
            if !romd {
                return match self.delete_region(flat_range, page_size) {
                    Ok(SlotRequest::Release(region)) => Ok(SlotRequest::ReleaseQuietly(region)),
                    Ok(other) => Ok(other),
                    Err(_) => Ok(SlotRequest::Nothing),
                };
            }
        }
        if region_type != RegionType::Ram && region_type != RegionType::RomDevice && region_type
            != RegionType::RamDevice {
            return Ok(SlotRequest::Nothing);
        }
        let aligned_range = match Self::align_mem_slot(flat_range.addr_range, page_size) {
            Ok(a) => a,
            Err(e) => {
                return Err(e);
            },
        };
        proof {
            lemma_aligned_within(flat_range.addr_range, page_size);
        }
        let align_adjust: u64 = aligned_range.base.0 - flat_range.addr_range.base.0;
        let host: u64 = match flat_range.owner.get_host_address() {
            Some(h) => h,
            None => 0,
        };
        let aligned_hva: u64 = host + flat_range.offset_in_region + align_adjust;
        let slot_idx = match self.get_free_slot(
            aligned_range.base.0,
            aligned_range.size,
            aligned_hva,
        ) {
            Ok(i) => i,
            Err(e) => {
                return Err(e);
            },
        };
        let read_only = match flat_range.owner.get_rom_device_romd() {
            Some(b) => b,
            None => false,
        };
        let flags: u32 = if read_only {
            MEM_READ_ONLY
        } else {
            0
        };
        Ok(
            SlotRequest::Register(
                KvmMemoryRegion {
                    slot: slot_idx | (self.as_id << 16),
                    guest_phys_addr: aligned_range.base.0,
                    memory_size: aligned_range.size,
                    userspace_addr: aligned_hva,
                    flags,
                },
            ),
        )
    }

    /// What a flat range that goes asks of the table and of the
    /// hypervisor. A range of a region without host memory asks nothing.
    /// Any other range is cut down to whole pages of `page_size` bytes;
    /// the slot that holds just these is freed, and the hypervisor is to
    /// release it. Where no slot holds them, nothing is asked.
    ///
    /// Fails as the alignment fails.
    pub fn delete_region(&mut self, flat_range: &FlatRange, page_size: u64) -> (r: Result<
        SlotRequest,
        Error,
    >)
        requires
            old(self).wf(),
        ensures
            final(self).wf(),
            final(self).as_id() == old(self).as_id(),
            r == deleted(old(self).slots(), old(self).as_id(), flat_range@, page_size).0,
            final(self).slots() == deleted(
                old(self).slots(),
                old(self).as_id(),
                flat_range@,
                page_size,
            ).1,
    {
        let region_type = flat_range.owner.region_type();
        if region_type != RegionType::Ram && region_type != RegionType::RomDevice && region_type
            != RegionType::RamDevice {
            return Ok(SlotRequest::Nothing);
        }
        let aligned_range = match Self::align_mem_slot(flat_range.addr_range, page_size) {
            Ok(a) => a,
            Err(e) => {
                return Err(e);
            },
        };
        let mem_slot = match self.delete_slot(aligned_range.base.0, aligned_range.size) {
            Ok(m) => m,
            Err(_) => {
                return Ok(SlotRequest::Nothing);
            },
        };
        Ok(
            SlotRequest::Release(
                KvmMemoryRegion {
                    slot: mem_slot.index | (self.as_id << 16),
                    guest_phys_addr: mem_slot.guest_addr,
                    memory_size: 0,
                    userspace_addr: mem_slot.host_addr,
                    flags: 0,
                },
            ),
        )
    }

    /// The call that registers `ioevtfd` at its memory address.
    ///
    /// Fails with `IoEventFdLength` where a value is to be matched and
    /// the width of the descriptor is not 2, 4 or 8 bytes.
    pub fn add_ioeventfd(&self, ioevtfd: &RegionIoEventFd) -> (r: Result<IoEventRequest, Error>)
        ensures
            r == ioevent_request(*ioevtfd, false, true),
    {
        match datamatch(ioevtfd) {
            Ok(value) => Ok(
                IoEventRequest {
                    fd: ioevtfd.fd,
                    port_io: false,
                    addr: ioevtfd.addr_range.base.0,
                    datamatch: value,
                    register: true,
                },
            ),
            Err(e) => Err(e),
        }
    }

    /// The call that releases `ioevtfd` at its memory address.
    ///
    /// Fails with `IoEventFdLength` where a value is to be matched and
    /// the width of the descriptor is not 2, 4 or 8 bytes.
    pub fn delete_ioeventfd(&self, ioevtfd: &RegionIoEventFd) -> (r: Result<IoEventRequest, Error>)
        ensures
            r == ioevent_request(*ioevtfd, false, false),
    {
        match datamatch(ioevtfd) {
            Ok(value) => Ok(
                IoEventRequest {
                    fd: ioevtfd.fd,
                    port_io: false,
                    addr: ioevtfd.addr_range.base.0,
                    datamatch: value,
                    register: false,
                },
            ),
            Err(e) => Err(e),
        }
    }

    /// The priority of the listener.
    pub fn priority(&self) -> (r: i32)
        ensures
            r == KVM_LISTENER_PRIORITY,
    {
        KVM_LISTENER_PRIORITY
    }

    /// What a request asks of the table and of the hypervisor;
    /// `page_size` is the size of a host page.
    ///
    /// Fails with `ListenerRequest` where the range or the descriptor
    /// that the request is about is missing, and where the request fails.
    pub fn handle_request(
        &mut self,
        flat_range: Option<&FlatRange>,
        evtfd: Option<&RegionIoEventFd>,
        req_type: ListenerReqType,
        page_size: u64,
    ) -> (r: Result<KvmRequest, Error>)
        requires
            old(self).wf(),
            flat_range matches Some(fr) ==> fr@.range_wf(),
        ensures
            final(self).wf(),
            final(self).as_id() == old(self).as_id(),
            ({
                let slots = old(self).slots();
                let as_id = old(self).as_id();
                let failure = Err::<KvmRequest, Error>(Error::ListenerRequest(req_type));
                match req_type {
                    ListenerReqType::AddRegion => match flat_range {
                        Some(fr) => final(self).slots() == added(slots, as_id, fr@, page_size).1
                            && r == match added(slots, as_id, fr@, page_size).0 {
                            Ok(s) => Ok(KvmRequest::Slot(s)),
                            Err(_) => failure,
                        },
                        None => r == failure && final(self).slots() == slots,
                    },
                    ListenerReqType::DeleteRegion => match flat_range {
                        Some(fr) => final(self).slots() == deleted(slots, as_id, fr@, page_size).1
                            && r == match deleted(slots, as_id, fr@, page_size).0 {
                            Ok(s) => Ok(KvmRequest::Slot(s)),
                            Err(_) => failure,
                        },
                        None => r == failure && final(self).slots() == slots,
                    },
                    ListenerReqType::AddIoeventfd => final(self).slots() == slots && r == (
                    match evtfd {
                        Some(e) => match ioevent_request(*e, false, true) {
                            Ok(q) => Ok(KvmRequest::IoEvent(q)),
                            Err(_) => failure,
                        },
                        None => failure,
                    }),
                    ListenerReqType::DeleteIoeventfd => final(self).slots() == slots && r == (
                    match evtfd {
                        Some(e) => match ioevent_request(*e, false, false) {
                            Ok(q) => Ok(KvmRequest::IoEvent(q)),
                            Err(_) => failure,
                        },
                        None => failure,
                    }),
                }
            }),
    {
        match req_type {
            ListenerReqType::AddRegion => match flat_range {
                Some(fr) => match self.add_region(fr, page_size) {
                    Ok(s) => Ok(KvmRequest::Slot(s)),
                    Err(_) => Err(Error::ListenerRequest(req_type)),
                },
                None => Err(Error::ListenerRequest(req_type)),
            },
            ListenerReqType::DeleteRegion => match flat_range {
                Some(fr) => match self.delete_region(fr, page_size) {
                    Ok(s) => Ok(KvmRequest::Slot(s)),
                    Err(_) => Err(Error::ListenerRequest(req_type)),
                },
                None => Err(Error::ListenerRequest(req_type)),
            },
            ListenerReqType::AddIoeventfd => match evtfd {
                Some(e) => match self.add_ioeventfd(e) {
                    Ok(q) => Ok(KvmRequest::IoEvent(q)),
                    Err(_) => Err(Error::ListenerRequest(req_type)),
                },
                None => Err(Error::ListenerRequest(req_type)),
            },
            ListenerReqType::DeleteIoeventfd => match evtfd {
                Some(e) => match self.delete_ioeventfd(e) {
                    Ok(q) => Ok(KvmRequest::IoEvent(q)),
                    Err(_) => Err(Error::ListenerRequest(req_type)),
                },
                None => Err(Error::ListenerRequest(req_type)),
            },
        }
    }

    /// Takes note of what the hypervisor answered to `request`, made for
    /// a request of type `req_type`. After a refusal to register memory
    /// the slot that was claimed for it is released.
    ///
    /// Fails with `ListenerRequest` where the hypervisor refused, but for
    /// a release that is of no account.
    pub fn settle(&mut self, request: &KvmRequest, req_type: ListenerReqType, accepted: bool) -> (r:
        Result<(), Error>)
        requires
            old(self).wf(),
        ensures
            final(self).wf(),
            final(self).as_id() == old(self).as_id(),
            r == settled(*request, req_type, accepted),
            final(self).slots() == if !accepted && (*request matches KvmRequest::Slot(
                SlotRequest::Register(region),
            )) {
                let region = request->Slot_0->Register_0;
                match first_match(
                    old(self).slots(),
                    region.guest_phys_addr,
                    region.memory_size,
                    0,
                ) {
                    Some(i) => released(old(self).slots(), i),
                    None => old(self).slots(),
                }
            } else {
                old(self).slots()
            },
    {
        if accepted {
            return Ok(());
        }
        match *request {
            KvmRequest::Slot(SlotRequest::Register(region)) => {
                let _ = self.delete_slot(region.guest_phys_addr, region.memory_size);
                Err(Error::ListenerRequest(req_type))
            },
            KvmRequest::Slot(SlotRequest::Release(_)) => Err(Error::ListenerRequest(req_type)),
            KvmRequest::Slot(SlotRequest::ReleaseQuietly(_)) => Ok(()),
            KvmRequest::Slot(SlotRequest::Nothing) => Ok(()),
            KvmRequest::IoEvent(_) => Err(Error::ListenerRequest(req_type)),
        }
    }
}

/// The outcome of a request to a listener, given what the hypervisor
/// answered to the call made for it.
pub open spec fn settled(request: KvmRequest, req_type: ListenerReqType, accepted: bool) -> Result<
    (),
    Error,
> {
    if accepted || request == KvmRequest::Slot(SlotRequest::Nothing) || (
    request matches KvmRequest::Slot(SlotRequest::ReleaseQuietly(_))) {
        Ok(())
    } else {
        Err(Error::ListenerRequest(req_type))
    }
}

/// Host address of the first byte of the range `a`, which lies in
/// `range`.
pub open spec fn host_address_of(range: FlatRangeView, a: AddressRange) -> u64 {
    let host = match range.owner.host_address() {
        Some(h) => h,
        None => 0,
    };
    (host + range.offset_in_region + (a.base.0 - range.addr_range.base.0)) as u64
}

/// What a flat range that goes asks of the hypervisor, and the slots
/// after it.
pub open spec fn deleted(slots: Seq<MemSlot>, as_id: u32, range: FlatRangeView, page_size: u64) -> (
    Result<SlotRequest, Error>,
    Seq<MemSlot>,
) {
    if !takes_slot(range.owner.region_type) {
        (Ok(SlotRequest::Nothing), slots)
    } else {
        match aligned(range.addr_range, page_size) {
            Err(e) => (Err(e), slots),
            Ok(a) => match first_match(slots, a.base.0, a.size, 0) {
                None => (Ok(SlotRequest::Nothing), slots),
                Some(i) => (
                    Ok(
                        SlotRequest::Release(
                            KvmMemoryRegion {
                                slot: slot_number(slots[i].index, as_id),
                                guest_phys_addr: slots[i].guest_addr,
                                memory_size: 0,
                                userspace_addr: slots[i].host_addr,
                                flags: 0,
                            },
                        ),
                    ),
                    released(slots, i),
                ),
            },
        }
    }
}

/// What a flat range that comes asks of the hypervisor, and the slots
/// after it.
pub open spec fn added(slots: Seq<MemSlot>, as_id: u32, range: FlatRangeView, page_size: u64) -> (
    Result<SlotRequest, Error>,
    Seq<MemSlot>,
) {
    if range.owner.region_type == RegionType::RomDevice && !range.owner.rom_dev_romd {
        let gone = deleted(slots, as_id, range, page_size);
        (
            match gone.0 {
                Ok(SlotRequest::Release(region)) => Ok(SlotRequest::ReleaseQuietly(region)),
                Ok(other) => Ok(other),
                Err(_) => Ok(SlotRequest::Nothing),
            },
            gone.1,
        )
    } else if !takes_slot(range.owner.region_type) {
        (Ok(SlotRequest::Nothing), slots)
    } else {
        match aligned(range.addr_range, page_size) {
            Err(e) => (Err(e), slots),
            Ok(a) => match first_overlap(slots, a, 0) {
                Some(i) => (Err(Error::KvmSlotOverlap(a, slots[i].range())), slots),
                None => match first_free(slots, 0) {
                    None => (Err(Error::NoAvailKvmSlot(slots.len() as usize)), slots),
                    Some(i) => (
                        Ok(
                            SlotRequest::Register(
                                KvmMemoryRegion {
                                    slot: slot_number(i as u32, as_id),
                                    guest_phys_addr: a.base.0,
                                    memory_size: a.size,
                                    userspace_addr: host_address_of(range, a),
                                    flags: if range.owner.romd() == Some(true) {
                                        MEM_READ_ONLY
                                    } else {
                                        0
                                    },
                                },
                            ),
                        ),
                        claimed(slots, i, a.base.0, a.size, host_address_of(range, a)),
                    ),
                },
            },
        }
    }
}

/// The listener of a virtual machine with port I/O: it turns requests
/// about event descriptors into calls about ports.
#[derive(Clone, Copy, Debug)]
pub struct KvmIoListener;

impl Default for KvmIoListener {
    fn default() -> (r: KvmIoListener) {
        KvmIoListener
    }
}

impl KvmIoListener {
    /// The call that registers `ioevtfd` at its port.
    ///
    /// Fails with `IoEventFdLength` where a value is to be matched and
    /// the width of the descriptor is not 2, 4 or 8 bytes.
    pub fn add_ioeventfd(&self, ioevtfd: &RegionIoEventFd) -> (r: Result<IoEventRequest, Error>)
        ensures
            r == ioevent_request(*ioevtfd, true, true),
    {
        match datamatch(ioevtfd) {
            Ok(value) => Ok(
                IoEventRequest {
                    fd: ioevtfd.fd,
                    port_io: true,
                    addr: ioevtfd.addr_range.base.0,
                    datamatch: value,
                    register: true,
                },
            ),
            Err(e) => Err(e),
        }
    }

    /// The call that releases `ioevtfd` at its port.
    ///
    /// Fails with `IoEventFdLength` where a value is to be matched and
    /// the width of the descriptor is not 2, 4 or 8 bytes.
    pub fn delete_ioeventfd(&self, ioevtfd: &RegionIoEventFd) -> (r: Result<IoEventRequest, Error>)
        ensures
            r == ioevent_request(*ioevtfd, true, false),
    {
        match datamatch(ioevtfd) {
            Ok(value) => Ok(
                IoEventRequest {
                    fd: ioevtfd.fd,
                    port_io: true,
                    addr: ioevtfd.addr_range.base.0,
                    datamatch: value,
                    register: false,
                },
            ),
            Err(e) => Err(e),
        }
    }

    /// The priority of the listener.
    pub fn priority(&self) -> (r: i32)
        ensures
            r == KVM_LISTENER_PRIORITY,
    {
        KVM_LISTENER_PRIORITY
    }

    /// What a request asks of the hypervisor: a call about a port for a
    /// request about an event descriptor, and nothing for any other.
    ///
    /// Fails with `ListenerRequest` where the descriptor is missing, and
    /// where the request fails.
    pub fn handle_request(
        &self,
        range: Option<&FlatRange>,
        evtfd: Option<&RegionIoEventFd>,
        req_type: ListenerReqType,
    ) -> (r: Result<KvmRequest, Error>)
        ensures
            r == match req_type {
                ListenerReqType::AddIoeventfd | ListenerReqType::DeleteIoeventfd => match evtfd {
                    Some(e) => match ioevent_request(
                        *e,
                        true,
                        req_type == ListenerReqType::AddIoeventfd,
                    ) {
                        Ok(q) => Ok(KvmRequest::IoEvent(q)),
                        Err(_) => Err(Error::ListenerRequest(req_type)),
                    },
                    None => Err(Error::ListenerRequest(req_type)),
                },
                _ => Ok(KvmRequest::Slot(SlotRequest::Nothing)),
            },
    {
        match req_type {
            ListenerReqType::AddIoeventfd => match evtfd {
                Some(e) => match self.add_ioeventfd(e) {
                    Ok(q) => Ok(KvmRequest::IoEvent(q)),
                    Err(_) => Err(Error::ListenerRequest(req_type)),
                },
                None => Err(Error::ListenerRequest(req_type)),
            },
            ListenerReqType::DeleteIoeventfd => match evtfd {
                Some(e) => match self.delete_ioeventfd(e) {
                    Ok(q) => Ok(KvmRequest::IoEvent(q)),
                    Err(_) => Err(Error::ListenerRequest(req_type)),
                },
                None => Err(Error::ListenerRequest(req_type)),
            },
            _ => Ok(KvmRequest::Slot(SlotRequest::Nothing)),
        }
    }
}

} // verus!
