//! The region tree: what a region is, how regions nest, and how an access
//! to a region is resolved.

use vstd::prelude::*;

use vstd::std_specs::cmp::PartialEqSpecImpl;

use crate::address::{AddressRange, GuestAddress};
use crate::error::Error;
use crate::flat_view::{lemma_paint_step, lemma_paint_wf, paint, paintable, piece, view_wf, FlatRange, FlatRangeView, FlatView};
use crate::host_mmap::{FileBackend, HostMemMapping};
use crate::render::{
    clipped, flat_view_of, lemma_clipped_paintable, lemma_clipped_within, render_children,
    render_region,
};

verus! {

/// Kinds of region.
#[derive(Debug, PartialEq, Eq, Copy, Clone, Structural)]
pub enum RegionType {
    /// Guest memory backed by host memory.
    Ram,
    /// A range served by device callbacks.
    IO,
    /// A grouping of other regions, with no storage of its own.
    Container,
    /// Host memory that a device can switch to callback access.
    RomDevice,
    /// Host memory owned by a device.
    RamDevice,
}

/// An event descriptor that the hypervisor signals when the guest writes
/// to `addr_range`; with `data_match`, only when it writes `data`.
#[derive(Clone, Copy, Debug, PartialEq, Eq, Structural)]
pub struct RegionIoEventFd {
    /// Descriptor of the event object.
    pub fd: i32,
    /// Address and width of the write that triggers the event.
    pub addr_range: AddressRange,
    /// Whether only a write of `data` triggers the event.
    pub data_match: bool,
    /// The value that triggers the event under `data_match`.
    pub data: u64,
}

impl RegionIoEventFd {
    /// The order of descriptors: by address, then by width, then matched
    /// before unmatched, then by value.
    pub open spec fn spec_before(self, other: RegionIoEventFd) -> bool {
        if self.addr_range.base.0 != other.addr_range.base.0 {
            self.addr_range.base.0 < other.addr_range.base.0
        } else if self.addr_range.size != other.addr_range.size {
            self.addr_range.size < other.addr_range.size
        } else if self.data_match != other.data_match {
            self.data_match && !other.data_match
        } else {
            self.data < other.data
        }
    }

    /// Whether two descriptors hold the same place in the order.
    pub open spec fn same_key(self, other: RegionIoEventFd) -> bool {
        &&& self.addr_range == other.addr_range
        &&& self.data_match == other.data_match
        &&& self.data == other.data
    }

    /// Whether this descriptor comes before `other` in the order.
    pub fn before(&self, other: &RegionIoEventFd) -> (r: bool)
        ensures
            r == self.spec_before(*other),
    {
        if self.addr_range.base.0 != other.addr_range.base.0 {
            return self.addr_range.base.0 < other.addr_range.base.0;
        }
        if self.addr_range.size != other.addr_range.size {
            return self.addr_range.size < other.addr_range.size;
        }
        if self.data_match != other.data_match {
            return self.data_match && (!other.data_match);
        }
        if self.data != other.data {
            return self.data < other.data;
        }
        false
    }

    /// A copy of the descriptor.
    pub fn try_clone(&self) -> (r: Result<RegionIoEventFd, Error>)
        ensures
            r == Ok::<RegionIoEventFd, Error>(*self),
    {
        Ok(
            RegionIoEventFd {
                fd: self.fd,
                addr_range: self.addr_range,
                data_match: self.data_match,
                data: self.data,
            },
        )
    }
}

/// No descriptor comes before itself.
pub proof fn lemma_before_irreflexive(a: RegionIoEventFd)
    ensures
        !a.spec_before(a),
{
}

/// Of two descriptors, at most one comes before the other.
pub proof fn lemma_before_asymmetric(a: RegionIoEventFd, b: RegionIoEventFd)
    requires
        a.spec_before(b),
    ensures
        !b.spec_before(a),
{
}

/// The order is transitive.
pub proof fn lemma_before_transitive(a: RegionIoEventFd, b: RegionIoEventFd, c: RegionIoEventFd)
    requires
        a.spec_before(b),
        b.spec_before(c),
    ensures
        a.spec_before(c),
{
}

/// The order is total: two descriptors are ordered one way or the other
/// unless they agree in address, width, match flag and value.
pub proof fn lemma_before_total(a: RegionIoEventFd, b: RegionIoEventFd)
    ensures
        a.spec_before(b) || b.spec_before(a) || a.same_key(b),
        a.same_key(b) ==> !a.spec_before(b) && !b.spec_before(a),
{
}

/// What a region is, as a mathematical value: its own attributes and the
/// values of its children, in the order in which they are rendered.
pub struct RegionView {
    /// What tells this region from every other.
    pub id: u64,
    /// Kind of region.
    pub region_type: RegionType,
    /// Rank among the children of one parent; the highest wins an overlap.
    pub priority: i32,
    /// Length in bytes.
    pub size: u64,
    /// Position within the parent.
    pub offset: u64,
    /// Host memory behind the region.
    pub mem_mapping: Option<HostMemMapping>,
    /// Event descriptors declared on the region, relative to its start.
    pub io_evtfds: Seq<RegionIoEventFd>,
    /// Children, highest priority first.
    pub subregions: Seq<RegionView>,
    /// For a ROM device: whether reads go straight to host memory.
    pub rom_dev_romd: bool,
}

impl RegionView {
    /// Whether the region is a leaf of the tree by its type.
    pub open spec fn is_terminal(self) -> bool {
        self.region_type != RegionType::Container
    }

    /// Whether the type of the region calls for host memory.
    pub open spec fn is_memory_backed(self) -> bool {
        self.region_type == RegionType::Ram || self.region_type == RegionType::RomDevice
            || self.region_type == RegionType::RamDevice
    }

    /// The read-only mode of a ROM device; nothing for any other region.
    pub open spec fn romd(self) -> Option<bool> {
        if self.region_type == RegionType::RomDevice {
            Some(self.rom_dev_romd)
        } else {
            None
        }
    }

    /// Host address of the first byte, for a region that has host memory.
    pub open spec fn host_address(self) -> Option<u64> {
        if self.region_type == RegionType::IO || self.region_type == RegionType::Container {
            None
        } else {
            match self.mem_mapping {
                Some(m) => Some(m.host_base()),
                None => None,
            }
        }
    }

    /// Whether `count` bytes at `offset` lie within the region.
    pub open spec fn holds(self, offset: u64, count: u64) -> bool {
        offset + count <= self.size
    }

    /// What holds of a single region: host memory exactly where the type
    /// calls for it, as long as the region, and children only in a
    /// container.
    pub open spec fn node_wf(self) -> bool {
        &&& self.is_memory_backed() <==> self.mem_mapping is Some
        &&& self.mem_mapping matches Some(m) ==> m.wf() && m.len() == self.size
        &&& self.is_terminal() ==> self.subregions.len() == 0
    }

    /// Whether the children stand in descending order of priority.
    pub open spec fn children_sorted(self) -> bool {
        forall|i: int, j: int|
            0 <= i < j < self.subregions.len() ==> self.subregions[i].priority
                >= self.subregions[j].priority
    }
}

/// How an access to a region is carried out.
#[derive(Clone, Copy, Debug, PartialEq, Eq, Structural)]
pub enum RegionAccess {
    /// Copy `count` bytes between the caller's buffer and host memory at
    /// `host_addr`.
    Memory { host_addr: u64, count: u64 },
    /// Hand the caller's buffer of `count` bytes to the device behind the
    /// region `region`, with the guest address `base` of the region and
    /// the `offset` of the access in it.
    Device { region: u64, base: GuestAddress, offset: u64, count: u64 },
}

impl RegionAccess {
    /// The outcome of a device access, given what the device answered: a
    /// refusal is an `IoAccess` failure at the place of the access.
    pub fn device_result(&self, accepted: bool) -> (r: Result<(), Error>)
        ensures
            r == match *self {
                RegionAccess::Device { region, base, offset, count } => if accepted {
                    Ok::<(), Error>(())
                } else {
                    Err::<(), Error>(Error::IoAccess(base.0, offset, count))
                },
                RegionAccess::Memory { host_addr, count } => Ok::<(), Error>(()),
            },
    {
        match *self {
            RegionAccess::Device { region, base, offset, count } => {
                if accepted {
                    Ok(())
                } else {
                    Err(Error::IoAccess(base.0, offset, count))
                }
            },
            RegionAccess::Memory { host_addr, count } => Ok(()),
        }
    }
}

/// A change to one region of a tree.
#[derive(Debug)]
pub enum RegionChange {
    /// Give the region this priority.
    Priority(i32),
    /// Move the region to this offset in its parent.
    Offset(GuestAddress),
    /// Put a ROM device in read-only mode, or take it out.
    Romd(bool),
    /// Replace the event descriptors declared on the region.
    IoEventFds(Vec<RegionIoEventFd>),
    /// Add this region to the container, at this offset.
    AddSubregion(Region, u64),
    /// Remove the child with this identity and type from the container;
    /// the offset is that of the child as the caller knows it.
    DeleteSubregion(u64, RegionType, u64),
}

/// A change to one region of a tree, as a mathematical value.
pub enum RegionChangeView {
    /// Give the region this priority.
    Priority(i32),
    /// Move the region to this offset in its parent.
    Offset(u64),
    /// Put a ROM device in read-only mode, or take it out.
    Romd(bool),
    /// Replace the event descriptors declared on the region.
    IoEventFds(Seq<RegionIoEventFd>),
    /// Add this region to the container, at this offset.
    AddSubregion(RegionView, u64),
    /// Remove the child with this identity and type from the container.
    DeleteSubregion(u64, RegionType, u64),
}

impl View for RegionChange {
    type V = RegionChangeView;

    open spec fn view(&self) -> RegionChangeView {
        match *self {
            RegionChange::Priority(p) => RegionChangeView::Priority(p),
            RegionChange::Offset(o) => RegionChangeView::Offset(o.0),
            RegionChange::Romd(b) => RegionChangeView::Romd(b),
            RegionChange::IoEventFds(fds) => RegionChangeView::IoEventFds(fds@),
            RegionChange::AddSubregion(child, offset) => RegionChangeView::AddSubregion(
                child@,
                offset,
            ),
            RegionChange::DeleteSubregion(id, ty, offset) => RegionChangeView::DeleteSubregion(
                id,
                ty,
                offset,
            ),
        }
    }
}

/// A region of the guest address map, with the regions below it.
#[derive(Debug)]
pub struct Region {
    /// What tells this region from every other.
    id: u64,
    /// Kind of the region; it never changes.
    region_type: RegionType,
    /// Rank among the children of one parent.
    priority: i32,
    /// Length in bytes.
    size: u64,
    /// Position within the parent.
    offset: GuestAddress,
    /// Host memory behind the region, for the kinds that have any.
    mem_mapping: Option<HostMemMapping>,
    /// Event descriptors declared on the region.
    io_evtfds: Vec<RegionIoEventFd>,
    /// Children, highest priority first; none but in a container.
    subregions: Vec<Region>,
    /// For a ROM device: whether reads go straight to host memory.
    rom_dev_romd: bool,
}

impl View for Region {
    type V = RegionView;

    closed spec fn view(&self) -> RegionView {
        region_view(*self)
    }
}

/// The value of a region: its attributes and the values of its children.
closed spec fn region_view(r: Region) -> RegionView
    decreases r,
{
    RegionView {
        id: r.id,
        region_type: r.region_type,
        priority: r.priority,
        size: r.size,
        offset: r.offset.0,
        mem_mapping: r.mem_mapping,
        io_evtfds: r.io_evtfds@,
        subregions: region_views(r.subregions@),
        rom_dev_romd: r.rom_dev_romd,
    }
}

/// The values of a run of regions, in order.
closed spec fn region_views(s: Seq<Region>) -> Seq<RegionView>
    decreases s,
{
    if s.len() == 0 {
        Seq::empty()
    } else {
        region_views(s.subrange(0, s.len() - 1)).push(region_view(s[s.len() - 1]))
    }
}

/// The values of a run of regions are the values of its members.
proof fn lemma_region_views(s: Seq<Region>)
    ensures
        region_views(s).len() == s.len(),
        forall|i: int| 0 <= i < s.len() ==> #[trigger] region_views(s)[i] == region_view(s[i]),
    decreases s.len(),
{
    if s.len() > 0 {
        let front = s.subrange(0, s.len() - 1);
        lemma_region_views(front);
        assert forall|i: int| 0 <= i < s.len() implies #[trigger] region_views(s)[i]
            == region_view(s[i]) by {
            if i < s.len() - 1 {
                assert(front[i] == s[i]);
            }
        }
    }
}

impl PartialEq for Region {
    fn eq(&self, other: &Region) -> (r: bool) {
        self.id == other.id && self.region_type == other.region_type
    }
}

impl PartialEqSpecImpl for Region {
    open spec fn obeys_eq_spec() -> bool {
        true
    }

    open spec fn eq_spec(&self, other: &Region) -> bool {
        self@.id == other@.id && self@.region_type == other@.region_type
    }
}

impl Eq for Region {

}

impl Region {
    #[verifier::type_invariant]
    closed spec fn inv(self) -> bool {
        &&& (self.region_type == RegionType::Ram || self.region_type == RegionType::RomDevice
            || self.region_type == RegionType::RamDevice) <==> self.mem_mapping is Some
        &&& self.mem_mapping matches Some(m) ==> m.wf() && m.len() == self.size
        &&& self.region_type != RegionType::Container ==> self.subregions@.len() == 0
    }

    /// The children of the value of a region are the values of its
    /// children.
    proof fn lemma_children(&self)
        ensures
            self@.subregions.len() == self.subregions@.len(),
            forall|i: int|
                0 <= i < self.subregions@.len() ==> #[trigger] self@.subregions[i]
                    == self.subregions@[i]@,
    {
        lemma_region_views(self.subregions@);
    }
}

impl Clone for Region {
    fn clone(&self) -> (r: Region)
        ensures
            r@ == self@,
        decreases self,
    {
        let mut subs: Vec<Region> = Vec::new();
        let mut i: usize = 0;
        while i < self.subregions.len()
            invariant
                i <= self.subregions.len(),
                subs.len() == i,
                forall|k: int| 0 <= k < i ==> (#[trigger] subs[k])@ == self.subregions[k]@,
            decreases self.subregions.len() - i,
        {
            let child = self.subregions[i].clone();
            subs.push(child);
            i += 1;
        }
        proof {
            use_type_invariant(self);
        }
        let r = Region {
            id: self.id,
            region_type: self.region_type,
            priority: self.priority,
            size: self.size,
            offset: self.offset,
            mem_mapping: self.mem_mapping,
            io_evtfds: copy_ioeventfds(&self.io_evtfds),
            subregions: subs,
            rom_dev_romd: self.rom_dev_romd,
        };
        proof {
            r.lemma_children();
            self.lemma_children();
            assert(r@.subregions =~= self@.subregions);
        }
        r
    }
}

/// A vector with the same descriptors.
fn copy_ioeventfds(fds: &Vec<RegionIoEventFd>) -> (r: Vec<RegionIoEventFd>)
    ensures
        r@ == fds@,
{
    let mut out: Vec<RegionIoEventFd> = Vec::new();
    let mut i: usize = 0;
    while i < fds.len()
        invariant
            i <= fds.len(),
            out@ == fds@.subrange(0, i as int),
        decreases fds.len() - i,
    {
        out.push(fds[i]);
        proof {
            assert(out@ =~= fds@.subrange(0, i + 1));
        }
        i += 1;
    }
    proof {
        assert(fds@.subrange(0, fds.len() as int) =~= fds@);
    }
    out
}

impl Region {
    /// Whether the region itself is well formed.
    pub open spec fn wf(&self) -> bool {
        self@.node_wf()
    }

    fn init_region_internal(
        id: u64,
        size: u64,
        region_type: RegionType,
        mem_mapping: Option<HostMemMapping>,
    ) -> (r: Region)
        requires
            (region_type == RegionType::Ram || region_type == RegionType::RomDevice || region_type
                == RegionType::RamDevice) <==> mem_mapping is Some,
            mem_mapping matches Some(m) ==> m.wf() && m.len() == size,
        ensures
            r@ == (RegionView {
                id,
                region_type,
                priority: 0,
                size,
                offset: 0,
                mem_mapping,
                io_evtfds: Seq::empty(),
                subregions: Seq::empty(),
                rom_dev_romd: false,
            }),
    {
        let r = Region {
            id,
            region_type,
            priority: 0,
            size,
            offset: GuestAddress(0),
            mem_mapping,
            io_evtfds: Vec::new(),
            subregions: Vec::new(),
            rom_dev_romd: false,
        };
        proof {
            r.lemma_children();
            assert(r@.subregions =~= Seq::empty());
            assert(r@.io_evtfds =~= Seq::empty());
        }
        r
    }

    /// A RAM region over `mem_mapping`, told from other regions by `id`.
    pub fn init_ram_region(id: u64, mem_mapping: HostMemMapping) -> (r: Region)
        ensures
            r@ == (RegionView {
                id,
                region_type: RegionType::Ram,
                priority: 0,
                size: mem_mapping.len(),
                offset: 0,
                mem_mapping: Some(mem_mapping),
                io_evtfds: Seq::empty(),
                subregions: Seq::empty(),
                rom_dev_romd: false,
            }),
    {
        Region::init_region_internal(id, mem_mapping.size(), RegionType::Ram, Some(mem_mapping))
    }

    /// An I/O region of `size` bytes, told from other regions by `id`.
    pub fn init_io_region(id: u64, size: u64) -> (r: Region)
        ensures
            r@ == (RegionView {
                id,
                region_type: RegionType::IO,
                priority: 0,
                size,
                offset: 0,
                mem_mapping: None,
                io_evtfds: Seq::empty(),
                subregions: Seq::empty(),
                rom_dev_romd: false,
            }),
    {
        Region::init_region_internal(id, size, RegionType::IO, None)
    }

    /// A container of `size` bytes, told from other regions by `id`.
    pub fn init_container_region(id: u64, size: u64) -> (r: Region)
        ensures
            r@ == (RegionView {
                id,
                region_type: RegionType::Container,
                priority: 0,
                size,
                offset: 0,
                mem_mapping: None,
                io_evtfds: Seq::empty(),
                subregions: Seq::empty(),
                rom_dev_romd: false,
            }),
    {
        Region::init_region_internal(id, size, RegionType::Container, None)
    }

    /// A ROM device over `mem_mapping`, in read-only mode, told from other
    /// regions by `id`.
    pub fn init_rom_device_region(id: u64, mem_mapping: HostMemMapping) -> (r: Region)
        ensures
            r@ == (RegionView {
                id,
                region_type: RegionType::RomDevice,
                priority: 0,
                size: mem_mapping.len(),
                offset: 0,
                mem_mapping: Some(mem_mapping),
                io_evtfds: Seq::empty(),
                subregions: Seq::empty(),
                rom_dev_romd: true,
            }),
    {
        let mut region = Region::init_region_internal(
            id,
            mem_mapping.size(),
            RegionType::RomDevice,
            Some(mem_mapping),
        );
        proof {
            use_type_invariant(&region);
        }
        region.rom_dev_romd = true;
        proof {
            region.lemma_children();
            assert(region@.subregions =~= Seq::empty());
        }
        region
    }

    /// A RAM device over `mem_mapping`, told from other regions by `id`.
    pub fn init_ram_device_region(id: u64, mem_mapping: HostMemMapping) -> (r: Region)
        ensures
            r@ == (RegionView {
                id,
                region_type: RegionType::RamDevice,
                priority: 0,
                size: mem_mapping.len(),
                offset: 0,
                mem_mapping: Some(mem_mapping),
                io_evtfds: Seq::empty(),
                subregions: Seq::empty(),
                rom_dev_romd: false,
            }),
    {
        Region::init_region_internal(
            id,
            mem_mapping.size(),
            RegionType::RamDevice,
            Some(mem_mapping),
        )
    }

    /// What tells this region from every other.
    pub fn id(&self) -> (r: u64)
        ensures
            r == self@.id,
    {
        self.id
    }

    /// Kind of the region.
    pub fn region_type(&self) -> (r: RegionType)
        ensures
            r == self@.region_type,
            self@.node_wf(),
    {
        proof {
            use_type_invariant(self);
            self.lemma_children();
        }
        self.region_type
    }

    /// Priority of the region among its siblings.
    pub fn priority(&self) -> (r: i32)
        ensures
            r == self@.priority,
    {
        self.priority
    }

    /// Sets the priority; it takes effect when the region is next added to
    /// a container.
    pub fn set_priority(&mut self, prior: i32)
        ensures
            final(self)@ == (RegionView { priority: prior, ..old(self)@ }),
    {
        proof {
            use_type_invariant(&*self);
        }
        self.priority = prior;

    }

    /// Length of the region in bytes.
    pub fn size(&self) -> (r: u64)
        ensures
            r == self@.size,
    {
        self.size
    }

    /// Position of the region within its parent.
    pub fn offset(&self) -> (r: GuestAddress)
        ensures
            r.0 == self@.offset,
    {
        self.offset
    }

    /// Sets the position of the region within its parent.
    pub fn set_offset(&mut self, offset: GuestAddress)
        ensures
            final(self)@ == (RegionView { offset: offset.0, ..old(self)@ }),
    {
        proof {
            use_type_invariant(&*self);
        }
        self.offset = offset;

    }

    /// Guest address at which the memory of a RAM region starts; nothing
    /// for any other region.
    pub fn start_addr(&self) -> (r: Option<GuestAddress>)
        ensures
            r == if self@.region_type != RegionType::Ram {
                None
            } else {
                match self@.mem_mapping {
                    Some(m) => Some(m.guest_base()),
                    None => None,
                }
            },
    {
        if self.region_type != RegionType::Ram {
            return None;
        }
        match self.mem_mapping {
            Some(m) => Some(m.start_address()),
            None => None,
        }
    }

    /// Switches a ROM device between read-only mode and callback mode, and
    /// tells whether the mode changed.
    ///
    /// Fails with `RegionType` on any other region.
    pub fn set_rom_device_romd(&mut self, read_only: bool) -> (r: Result<bool, Error>)
        ensures
            old(self)@.region_type != RegionType::RomDevice ==> r == Err::<bool, Error>(
                Error::RegionType(old(self)@.region_type),
            ) && final(self)@ == old(self)@,
            old(self)@.region_type == RegionType::RomDevice ==> r == Ok::<bool, Error>(
                old(self)@.rom_dev_romd != read_only,
            ) && final(self)@ == (RegionView { rom_dev_romd: read_only, ..old(self)@ }),
    {
        if self.region_type != RegionType::RomDevice {
            return Err(Error::RegionType(self.region_type));
        }
        proof {
            use_type_invariant(&*self);
        }
        let changed = self.rom_dev_romd != read_only;
        self.rom_dev_romd = read_only;

        Ok(changed)
    }

    /// The read-only mode of a ROM device; nothing for any other region.
    pub fn get_rom_device_romd(&self) -> (r: Option<bool>)
        ensures
            r == self@.romd(),
    {
        if self.region_type != RegionType::RomDevice {
            None
        } else {
            Some(self.rom_dev_romd)
        }
    }

    /// Host address of the first byte of the region, if host memory backs
    /// it.
    pub fn get_host_address(&self) -> (r: Option<u64>)
        ensures
            r == self@.host_address(),
            self@.node_wf(),
    {
        proof {
            use_type_invariant(self);
            self.lemma_children();
        }
        if self.region_type == RegionType::IO || self.region_type == RegionType::Container {
            return None;
        }
        match self.mem_mapping {
            Some(m) => Some(m.host_address()),
            None => None,
        }
    }

    /// The file behind the host memory of the region, if there is one.
    pub fn get_file_backend(&self) -> (r: Option<FileBackend>)
        ensures
            r == match self@.mem_mapping {
                Some(m) => m.backend(),
                None => None,
            },
    {
        match self.mem_mapping {
            Some(m) => m.file_backend(),
            None => None,
        }
    }

    /// Page size of the file behind the host memory of the region, if
    /// there is one.
    pub fn get_region_page_size(&self) -> (r: Option<u64>)
        ensures
            r == match self@.mem_mapping {
                Some(m) => match m.backend() {
                    Some(fb) => Some(fb.page_size),
                    None => None,
                },
                None => None,
            },
    {
        match self.get_file_backend() {
            Some(fb) => Some(fb.page_size),
            None => None,
        }
    }

    /// The children of the region, highest priority first.
    pub fn subregions(&self) -> (r: &Vec<Region>)
        ensures
            r@.len() == self@.subregions.len(),
            forall|i: int| 0 <= i < r@.len() ==> (#[trigger] r@[i])@ == self@.subregions[i],
    {
        proof {
            self.lemma_children();
        }
        &self.subregions
    }

    /// Checks that `size` bytes at `addr` lie within the region.
    ///
    /// Fails with `Overflow` when they do not.
    pub fn check_valid_offset(&self, addr: u64, size: u64) -> (r: Result<(), Error>)
        ensures
            r == if self@.holds(addr, size) {
                Ok::<(), Error>(())
            } else {
                Err::<(), Error>(Error::Overflow(addr))
            },
    {
        match addr.checked_add(size) {
            Some(end) => {
                if end <= self.size {
                    Ok(())
                } else {
                    Err(Error::Overflow(addr))
                }
            },
            None => Err(Error::Overflow(addr)),
        }
    }

    /// The event descriptors declared on the region.
    pub fn ioeventfds(&self) -> (r: Vec<RegionIoEventFd>)
        ensures
            r@ == self@.io_evtfds,
    {
        copy_ioeventfds(&self.io_evtfds)
    }

    /// Replaces the event descriptors declared on the region.
    pub fn set_ioeventfds(&mut self, new_fds: &Vec<RegionIoEventFd>)
        ensures
            final(self)@ == (RegionView { io_evtfds: new_fds@, ..old(self)@ }),
    {
        proof {
            use_type_invariant(&*self);
        }
        self.io_evtfds = copy_ioeventfds(new_fds);

    }

    /// How to read `count` bytes at `offset` in this region; `base` is the
    /// guest address at which the region starts.
    ///
    /// Host memory is read in place; an I/O region, and a ROM device in
    /// callback mode, hand the read to the device. Fails with
    /// `InvalidOffset` when the bytes do not lie within a region with host
    /// memory, with `Overflow` when an I/O read is too long for a buffer,
    /// and with `RegionType` on a container.
    pub fn read(&self, base: GuestAddress, offset: u64, count: u64) -> (r: Result<
        RegionAccess,
        Error,
    >)
        ensures
            r == self@.read_plan(base, offset, count),
    {
        proof {
            use_type_invariant(self);
        }
        match self.region_type {
            RegionType::Ram | RegionType::RamDevice => {
                if self.check_valid_offset(offset, count).is_err() {
                    return Err(Error::InvalidOffset(offset, count, self.size));
                }
                match self.mem_mapping {
                    Some(m) => Ok(
                        RegionAccess::Memory { host_addr: m.host_address() + offset, count },
                    ),
                    None => Err(Error::RegionType(self.region_type)),
                }
            },
            RegionType::RomDevice => {
                if self.check_valid_offset(offset, count).is_err() {
                    return Err(Error::InvalidOffset(offset, count, self.size));
                }
                if self.rom_dev_romd {
                    match self.mem_mapping {
                        Some(m) => Ok(
                            RegionAccess::Memory { host_addr: m.host_address() + offset, count },
                        ),
                        None => Err(Error::RegionType(self.region_type)),
                    }
                } else {
                    Ok(RegionAccess::Device { region: self.id, base, offset, count })
                }
            },
            RegionType::IO => {
                if count >= usize::MAX as u64 {
                    return Err(Error::Overflow(count));
                }
                Ok(RegionAccess::Device { region: self.id, base, offset, count })
            },
            RegionType::Container => Err(Error::RegionType(self.region_type)),
        }
    }

    /// How to write `count` bytes at `offset` in this region; `base` is
    /// the guest address at which the region starts.
    ///
    /// RAM is written in place; an I/O region and a ROM device hand the
    /// write to the device. Fails with `InvalidOffset` when the bytes do
    /// not lie within the region, with `Overflow` when a device write is
    /// too long for a buffer, and with `RegionType` on a container.
    pub fn write(&self, base: GuestAddress, offset: u64, count: u64) -> (r: Result<
        RegionAccess,
        Error,
    >)
        ensures
            r == self@.write_plan(base, offset, count),
    {
        proof {
            use_type_invariant(self);
        }
        if self.check_valid_offset(offset, count).is_err() {
            return Err(Error::InvalidOffset(offset, count, self.size));
        }
        match self.region_type {
            RegionType::Ram | RegionType::RamDevice => {
                match self.mem_mapping {
                    Some(m) => Ok(
                        RegionAccess::Memory { host_addr: m.host_address() + offset, count },
                    ),
                    None => Err(Error::RegionType(self.region_type)),
                }
            },
            RegionType::RomDevice | RegionType::IO => {
                if count >= usize::MAX as u64 {
                    return Err(Error::Overflow(count));
                }
                Ok(RegionAccess::Device { region: self.id, base, offset, count })
            },
            RegionType::Container => Err(Error::RegionType(self.region_type)),
        }
    }

    /// Adds `child` to this container at `offset`, before the first child
    /// whose priority is not above that of `child`.
    ///
    /// Fails with `RegionType` when this region is no container, and with
    /// `InvalidOffset` when the child does not lie within it.
    pub fn add_subregion(&mut self, child: Region, offset: u64) -> (r: Result<(), Error>)
        ensures
            r == old(self)@.can_add(child@, offset),
            r is Ok ==> final(self)@ == old(self)@.with_child(child@, offset),
            r is Err ==> final(self)@ == old(self)@,
            r is Ok && old(self)@.children_sorted() ==> final(self)@.children_sorted(),
    {
        proof {
            use_type_invariant(&*self);
        }
        if self.region_type != RegionType::Container {
            return Err(Error::RegionType(self.region_type));
        }
        let child_size = child.size();
        if self.check_valid_offset(offset, child_size).is_err() {
            return Err(Error::InvalidOffset(offset, child_size, self.size));
        }
        let mut child = child;
        child.set_offset(GuestAddress(offset));

        let mut index: usize = 0;
        while index < self.subregions.len() && child.priority < self.subregions[index].priority
            invariant
                index <= self.subregions.len(),
                self.subregions == old(self).subregions,
                forall|k: int|
                    0 <= k < index ==> (#[trigger] self.subregions[k]).priority > child.priority,
            decreases self.subregions.len() - index,
        {
            index += 1;
        }
        proof {
            old(self).lemma_children();
            child.lemma_children();
            lemma_insert_position(old(self)@.subregions, child@.priority, index as int);
            if old(self)@.children_sorted() {
                lemma_insert_sorted(old(self)@.subregions, child@);
            }
        }
        let mut subs: Vec<Region> = Vec::new();
        core::mem::swap(&mut self.subregions, &mut subs);
        subs.insert(index, child);
        core::mem::swap(&mut self.subregions, &mut subs);
        proof {
            self.lemma_children();
            assert(self@.subregions =~= old(self)@.subregions.insert(index as int, child@));
        }
        Ok(())
    }

    /// Removes the first child with the identity `id` and the type `ty`,
    /// and tells whether there was one.
    fn remove_child(&mut self, id: u64, ty: RegionType) -> (found: bool)
        ensures
            match old(self)@.child_at(id, ty, 0) {
                Some(i) => found && final(self)@ == (RegionView {
                    subregions: old(self)@.subregions.remove(i),
                    ..old(self)@
                }),
                None => !found && final(self)@ == old(self)@,
            },
    {
        proof {
            use_type_invariant(&*self);
            self.lemma_children();
        }
        let mut index: usize = 0;
        while index < self.subregions.len() && !(self.subregions[index].id == id
            && self.subregions[index].region_type == ty)
            invariant
                index <= self.subregions.len(),
                self.subregions == old(self).subregions,
                old(self)@.child_at(id, ty, 0) == old(self)@.child_at(id, ty, index as nat),
                forall|i: int|
                    0 <= i < self.subregions@.len() ==> #[trigger] self@.subregions[i]
                        == self.subregions@[i]@,
                self@.subregions.len() == self.subregions@.len(),
            decreases self.subregions.len() - index,
        {
            index += 1;
        }
        if index == self.subregions.len() {
            return false;
        }
        let mut subs: Vec<Region> = Vec::new();
        core::mem::swap(&mut self.subregions, &mut subs);
        subs.remove(index);
        core::mem::swap(&mut self.subregions, &mut subs);
        proof {
            self.lemma_children();
            assert(self@.subregions =~= old(self)@.subregions.remove(index as int));
        }
        true
    }

    /// Removes the first child that is the region `child`, by identity and
    /// type.
    ///
    /// Fails with `RegionNotFound` when no child is that region.
    pub fn delete_subregion(&mut self, child: &Region) -> (r: Result<(), Error>)
        ensures
            match old(self)@.child_at(child@.id, child@.region_type, 0) {
                Some(i) => r is Ok && final(self)@ == (RegionView {
                    subregions: old(self)@.subregions.remove(i),
                    ..old(self)@
                }),
                None => r == Err::<(), Error>(Error::RegionNotFound(child@.offset))
                    && final(self)@ == old(self)@,
            },
    {
        if self.remove_child(child.id, child.region_type) {
            Ok(())
        } else {
            Err(Error::RegionNotFound(child.offset.0))
        }
    }

    /// Makes `change` to this region.
    ///
    /// Fails as the change fails on a region of its own: a mode on a
    /// region that is no ROM device, a child that cannot be added, a
    /// child that is not there.
    pub fn apply(&mut self, change: &RegionChange) -> (r: Result<(), Error>)
        ensures
            match old(self)@.applied(change@) {
                Ok(v) => r is Ok && final(self)@ == v,
                Err(e) => r == Err::<(), Error>(e) && final(self)@ == old(self)@,
            },
    {
        match change {
            RegionChange::Priority(p) => {
                self.set_priority(*p);
                Ok(())
            },
            RegionChange::Offset(o) => {
                self.set_offset(*o);
                Ok(())
            },
            RegionChange::Romd(b) => {
                match self.set_rom_device_romd(*b) {
                    Ok(_) => Ok(()),
                    Err(e) => Err(e),
                }
            },
            RegionChange::IoEventFds(fds) => {
                self.set_ioeventfds(fds);
                Ok(())
            },
            RegionChange::AddSubregion(child, offset) => self.add_subregion(child.clone(), *offset),
            RegionChange::DeleteSubregion(id, ty, offset) => {
                if self.remove_child(*id, *ty) {
                    Ok(())
                } else {
                    Err(Error::RegionNotFound(*offset))
                }
            },
        }
    }

    /// Makes `change` to the first region, in the order of rendering,
    /// that `id` names, among this region and all below it. The result
    /// is nothing where `id` names no region.
    pub fn change(&mut self, id: u64, change: &RegionChange) -> (r: Option<Result<(), Error>>)
        ensures
            match old(self)@.changed(id, change@) {
                None => r is None && final(self)@ == old(self)@,
                Some(Ok(v)) => r == Some(Ok::<(), Error>(())) && final(self)@ == v,
                Some(Err(e)) => r == Some(Err::<(), Error>(e)) && final(self)@ == old(self)@,
            },
        decreases *old(self),
    {
        if self.id == id {
            return match self.apply(change) {
                Ok(()) => Some(Ok(())),
                Err(e) => Some(Err(e)),
            };
        }
        proof {
            use_type_invariant(&*self);
            self.lemma_children();
        }
        let mut subs: Vec<Region> = Vec::new();
        core::mem::swap(&mut self.subregions, &mut subs);
        let ghost before = subs@;
        let mut outcome: Option<Result<(), Error>> = None;
        let mut i: usize = 0;
        while i < subs.len() && outcome.is_none()
            invariant
                i <= subs.len(),
                before == old(self).subregions@,
                subs@.len() == before.len(),
                old(self)@.subregions.len() == before.len(),
                forall|k: int|
                    0 <= k < before.len() ==> #[trigger] old(self)@.subregions[k] == before[k]@,
                forall|k: int| i <= k < before.len() ==> #[trigger] subs@[k] == before[k],
                match outcome {
                    None => old(self)@.changed_children(i as nat, id, change@) == old(
                        self,
                    )@.changed_children(0, id, change@) && forall|k: int|
                        0 <= k < before.len() ==> (#[trigger] subs@[k])@ == before[k]@,
                    Some(Ok(_)) => i > 0 && old(self)@.changed_children(0, id, change@) == Some(
                        Ok::<RegionView, Error>(
                            RegionView {
                                subregions: old(self)@.subregions.update(i - 1, subs@[i - 1]@),
                                ..old(self)@
                            },
                        ),
                    ) && forall|k: int|
                        0 <= k < before.len() && k != i - 1 ==> (#[trigger] subs@[k])@
                            == before[k]@,
                    Some(Err(e)) => old(self)@.changed_children(0, id, change@) == Some(
                        Err::<RegionView, Error>(e),
                    ) && forall|k: int|
                        0 <= k < before.len() ==> (#[trigger] subs@[k])@ == before[k]@,
                },
            decreases subs.len() - i,
        {
            let ghost during = subs@;
            let mut child = subs.remove(i);
            proof {
                assert(child == old(self).subregions@[i as int]);
            }
            outcome = child.change(id, change);
            subs.insert(i, child);
            proof {
                assert(subs@.len() == before.len());
                assert forall|k: int| 0 <= k < before.len() && k != i implies #[trigger] subs@[k]
                    == during[k] by {}
            }
            i += 1;
        }
        core::mem::swap(&mut self.subregions, &mut subs);
        proof {
            self.lemma_children();
            assert(old(self)@.changed(id, change@) == old(self)@.changed_children(
                0,
                id,
                change@,
            ));
            match outcome {
                None => {
                    assert(self@.subregions =~= old(self)@.subregions);
                },
                Some(Ok(u)) => {
                    assert(self@.subregions =~= old(self)@.subregions.update(
                        i - 1,
                        self.subregions@[i - 1]@,
                    ));
                    assert(u == ());
                },
                Some(Err(e)) => {
                    assert(self@.subregions =~= old(self)@.subregions);
                },
            }
        }
        outcome
    }

    /// Lays this terminal region, whose parent starts at `base`, under the
    /// ranges of `flat_view`, within `addr_range`: the region gets every
    /// gap of the view that lies in its own addresses and in `addr_range`.
    ///
    /// Fails with `Overflow` when the region starts beyond the 64-bit
    /// space and with `RegionOutOfRange` when it shares no address with
    /// `addr_range`.
    fn render_terminate_region(
        &self,
        base: GuestAddress,
        addr_range: AddressRange,
        flat_view: &mut FlatView,
    ) -> (r: Result<(), Error>)
        requires
            self@.is_terminal(),
            view_wf(old(flat_view)@),
            addr_range.end() <= u64::MAX,
        ensures
            match clipped(self@, base.0 as int, addr_range) {
                Ok(both) => r is Ok && final(flat_view)@ == paint(
                    old(flat_view)@,
                    self@,
                    base.0 + self@.offset,
                    both.start(),
                    both.end(),
                ),
                Err(e) => r == Err::<(), Error>(e) && final(flat_view)@ == old(flat_view)@,
            },
            view_wf(final(flat_view)@),
    {
        let region_base = match base.checked_add(self.offset.0) {
            Some(b) => b,
            None => {
                return Err(Error::Overflow(base.0));
            },
        };
        let region_range = AddressRange::new(region_base, self.size);
        let intersect = match region_range.find_intersection(addr_range) {
            Some(both) => both,
            None => {
                return Err(
                    Error::RegionOutOfRange(region_base.0, addr_range.base.0, addr_range.size),
                );
            },
        };
        let ghost rb: int = region_base.0 as int;
        let ghost hi: int = intersect.end();
        let ghost target = paint(old(flat_view)@, self@, rb, intersect.start(), hi);
        proof {
            lemma_clipped_paintable(self@, base.0 as int, addr_range);
            lemma_paint_wf(old(flat_view)@, self@, rb, intersect.start(), hi);
        }

        let mut offset_in_region: u64 = intersect.base.offset_from(region_range.base);
        let mut start: GuestAddress = intersect.base;
        let mut remain: u64 = intersect.size;
        let mut index: usize = 0;
        let ghost mut done: int = 0;
        proof {
            assert(flat_view@.skip(0) =~= flat_view@);
            assert(flat_view@.take(0) + flat_view@ =~= flat_view@);
        }

        while remain > 0 && index < flat_view.0.len()
            invariant
                index <= flat_view.0.len(),
                paintable(self@, rb, start.0 as int, hi),
                start.0 + remain == hi,
                offset_in_region == start.0 - rb,
                0 <= done <= old(flat_view)@.len(),
                flat_view@.skip(index as int) == old(flat_view)@.skip(done),
                view_wf(old(flat_view)@),
                target == flat_view@.take(index as int) + paint(
                    flat_view@.skip(index as int),
                    self@,
                    rb,
                    start.0 as int,
                    hi,
                ),
            decreases flat_view.0.len() - index, remain,
        {
            let ghost before = flat_view@;
            let ghost tail = before.skip(index as int);
            let ghost head = before.take(index as int);
            proof {
                assert(tail[0] == old(flat_view)@[done]);
                assert(tail[0] == flat_view.0[index as int]@);
                assert(tail.skip(1) =~= old(flat_view)@.skip(done + 1));
                done = done + 1;
            }
            let fr_base: GuestAddress = flat_view.0[index].addr_range.base;
            let fr_end: GuestAddress = flat_view.0[index].addr_range.end_addr();
            if start.0 >= fr_end.0 {
                proof {
                    assert(before.take(index + 1) =~= head + seq![tail[0]]);
                    assert(before.skip(index + 1) =~= tail.skip(1));
                    assert(target =~= before.take(index + 1) + paint(
                        tail.skip(1),
                        self@,
                        rb,
                        start.0 as int,
                        hi,
                    ));
                }
                index += 1;
            } else {
                proof {
                    lemma_paint_step(tail, self@, rb, start.0 as int, hi);
                }
                if start.0 < fr_base.0 {
                    let gap: u64 = fr_base.offset_from(start);
                    let range_size: u64 = if remain < gap {
                        remain
                    } else {
                        gap
                    };
                    let entry = FlatRange {
                        addr_range: AddressRange { base: start, size: range_size },
                        owner: self.clone(),
                        offset_in_region,
                        rom_dev_romd: self.get_rom_device_romd(),
                    };
                    let ghost shown = entry@;
                    proof {
                        assert(shown == piece(
                            self@,
                            rb,
                            start.0 as int,
                            vstd::math::min(hi, fr_base.0 as int),
                        ));
                    }
                    flat_view.0.insert(index, entry);
                    proof {
                        assert(flat_view@ =~= before.insert(index as int, shown));
                        assert(flat_view@.skip(index + 2) =~= tail.skip(1));
                        assert(flat_view@.take(index + 2) =~= head + seq![shown, tail[0]]);
                    }
                    index += 1;
                } else {
                    proof {
                        assert(flat_view@.skip(index + 1) =~= tail.skip(1));
                        assert(flat_view@.take(index + 1) =~= head + seq![tail[0]]);
                    }
                }
                let reach: u64 = fr_end.offset_from(start);
                let step: u64 = if reach < remain {
                    reach
                } else {
                    remain
                };
                start = start.unchecked_add(step);
                offset_in_region = offset_in_region + step;
                remain = remain - step;
                assert(index < flat_view.0.len());
                index += 1;
                proof {
                    assert(target =~= flat_view@.take(index as int) + paint(
                        tail.skip(1),
                        self@,
                        rb,
                        start.0 as int,
                        hi,
                    ));
                }
            }
        }

        if remain > 0 {
            let entry = FlatRange {
                addr_range: AddressRange::new(start, remain),
                owner: self.clone(),
                offset_in_region,
                rom_dev_romd: self.get_rom_device_romd(),
            };
            let ghost before = flat_view@;
            let ghost shown = entry@;
            proof {
                assert(shown == piece(self@, rb, start.0 as int, hi));
                assert(before.skip(index as int) =~= Seq::<FlatRangeView>::empty());
                assert(before.take(index as int) =~= before);
            }
            flat_view.0.insert(index, entry);
            proof {
                assert(flat_view@ =~= before.push(shown));
                assert(flat_view@ =~= target);
            }
        } else {
            proof {
                let v = flat_view@;
                assert(v.take(index as int) + v.skip(index as int) =~= v);
            }
        }
        Ok(())
    }

    /// Renders this region and all below it into `flat_view`, within
    /// `addr_range`; `base` is where the parent of this region starts.
    /// Children are rendered in their stored order, so that a child with
    /// a higher priority takes every address it shares with a later one.
    ///
    /// Fails, with the error of the first region that cannot be rendered,
    /// when a region starts beyond the 64-bit space (`Overflow`) or shares
    /// no address with the range handed down to it (`RegionOutOfRange`).
    fn render_region_pass(
        &self,
        base: GuestAddress,
        addr_range: AddressRange,
        flat_view: &mut FlatView,
    ) -> (r: Result<(), Error>)
        requires
            view_wf(old(flat_view)@),
            addr_range.end() <= u64::MAX,
        ensures
            match render_region(self@, base.0 as int, addr_range, old(flat_view)@) {
                Ok(v) => r is Ok && final(flat_view)@ == v,
                Err(e) => r == Err::<(), Error>(e),
            },
            view_wf(final(flat_view)@),
        decreases self,
    {
        match self.region_type {
            RegionType::Container => {
                let region_base = match base.checked_add(self.offset.0) {
                    Some(b) => b,
                    None => {
                        return Err(Error::Overflow(base.0));
                    },
                };
                let region_range = AddressRange::new(region_base, self.size);
                let intersect = match region_range.find_intersection(addr_range) {
                    Some(both) => both,
                    None => {
                        return Err(
                            Error::RegionOutOfRange(
                                region_base.0,
                                addr_range.base.0,
                                addr_range.size,
                            ),
                        );
                    },
                };
                proof {
                    self.lemma_children();
                    lemma_clipped_within(self@, base.0 as int, addr_range);
                }
                let mut i: usize = 0;
                while i < self.subregions.len()
                    invariant
                        i <= self.subregions.len(),
                        view_wf(flat_view@),
                        render_region(self@, base.0 as int, addr_range, old(flat_view)@)
                            == render_children(
                            self@,
                            0,
                            region_base.0 as int,
                            intersect,
                            old(flat_view)@,
                        ),
                        intersect.end() <= u64::MAX,
                        self@.subregions.len() == self.subregions@.len(),
                        forall|k: int|
                            0 <= k < self.subregions@.len() ==> #[trigger] self@.subregions[k]
                                == self.subregions@[k]@,
                        render_children(self@, i as nat, region_base.0 as int, intersect, flat_view@)
                            == render_children(
                            self@,
                            0,
                            region_base.0 as int,
                            intersect,
                            old(flat_view)@,
                        ),
                    decreases self.subregions.len() - i,
                {
                    let ghost before = flat_view@;
                    proof {
                        assert(self@.subregions[i as int] == self.subregions@[i as int]@);
                        assert(render_children(
                            self@,
                            i as nat,
                            region_base.0 as int,
                            intersect,
                            before,
                        ) == match render_region(
                            self@.subregions[i as int],
                            region_base.0 as int,
                            intersect,
                            before,
                        ) {
                            Err(e) => Err(e),
                            Ok(next) => render_children(
                                self@,
                                (i + 1) as nat,
                                region_base.0 as int,
                                intersect,
                                next,
                            ),
                        });
                    }
                    match self.subregions[i].render_region_pass(region_base, intersect, flat_view) {
                        Err(e) => {
                            return Err(e);
                        },
                        Ok(()) => {},
                    }
                    i += 1;
                }
                Ok(())
            },
            RegionType::Ram | RegionType::IO | RegionType::RomDevice | RegionType::RamDevice => {
                self.render_terminate_region(base, addr_range, flat_view)
            },
        }
    }

    /// The flat view of this region and all below it, within `addr_range`;
    /// `base` is where the parent of this region starts.
    ///
    /// Fails with `Overflow` when `addr_range` ends beyond the 64-bit
    /// space, and as rendering fails.
    pub fn generate_flatview(&self, base: GuestAddress, addr_range: AddressRange) -> (r: Result<
        FlatView,
        Error,
    >)
        ensures
            match flat_view_of(self@, base.0 as int, addr_range) {
                Ok(v) => r matches Ok(fv) && fv@ == v && view_wf(v),
                Err(e) => r matches Err(err) && err == e,
            },
    {
        if addr_range.base.0.checked_add(addr_range.size).is_none() {
            return Err(Error::Overflow(addr_range.base.0));
        }
        let mut flat_view = FlatView::default();
        match self.region_type {
            RegionType::Container => {
                match self.render_region_pass(base, addr_range, &mut flat_view) {
                    Err(e) => {
                        return Err(e);
                    },
                    Ok(()) => {},
                }
            },
            RegionType::Ram | RegionType::IO | RegionType::RomDevice | RegionType::RamDevice => {
                match self.render_terminate_region(base, addr_range, &mut flat_view) {
                    Err(e) => {
                        return Err(e);
                    },
                    Ok(()) => {},
                }
            },
        }
        Ok(flat_view)
    }
}

impl RegionView {
    /// Host memory access of `count` bytes at `offset` in the region.
    pub open spec fn memory_access(self, offset: u64, count: u64) -> RegionAccess {
        RegionAccess::Memory {
            host_addr: (self.mem_mapping->Some_0.host_base() + offset) as u64,
            count,
        }
    }

    /// How a read of `count` bytes at `offset` is carried out, or why it
    /// is refused.
    pub open spec fn read_plan(self, base: GuestAddress, offset: u64, count: u64) -> Result<
        RegionAccess,
        Error,
    > {
        match self.region_type {
            RegionType::Ram | RegionType::RamDevice => if !self.holds(offset, count) {
                Err(Error::InvalidOffset(offset, count, self.size))
            } else {
                Ok(self.memory_access(offset, count))
            },
            RegionType::RomDevice => if !self.holds(offset, count) {
                Err(Error::InvalidOffset(offset, count, self.size))
            } else if self.rom_dev_romd {
                Ok(self.memory_access(offset, count))
            } else {
                Ok(RegionAccess::Device { region: self.id, base, offset, count })
            },
            RegionType::IO => if count >= usize::MAX {
                Err(Error::Overflow(count))
            } else {
                Ok(RegionAccess::Device { region: self.id, base, offset, count })
            },
            RegionType::Container => Err(Error::RegionType(RegionType::Container)),
        }
    }

    /// How a write of `count` bytes at `offset` is carried out, or why it
    /// is refused.
    pub open spec fn write_plan(self, base: GuestAddress, offset: u64, count: u64) -> Result<
        RegionAccess,
        Error,
    > {
        if !self.holds(offset, count) {
            Err(Error::InvalidOffset(offset, count, self.size))
        } else {
            match self.region_type {
                RegionType::Ram | RegionType::RamDevice => Ok(self.memory_access(offset, count)),
                RegionType::RomDevice | RegionType::IO => if count >= usize::MAX {
                    Err(Error::Overflow(count))
                } else {
                    Ok(RegionAccess::Device { region: self.id, base, offset, count })
                },
                RegionType::Container => Err(Error::RegionType(RegionType::Container)),
            }
        }
    }

    /// Index of the first child from the `from`-th on with the given
    /// identity and type.
    pub open spec fn child_at(self, id: u64, ty: RegionType, from: nat) -> Option<int>
        decreases self.subregions.len() - from,
    {
        if from >= self.subregions.len() {
            None
        } else if self.subregions[from as int].id == id && self.subregions[from as int].region_type
            == ty {
            Some(from as int)
        } else {
            self.child_at(id, ty, from + 1)
        }
    }

    /// This region after `change` is made to it, or why the change fails.
    pub open spec fn applied(self, change: RegionChangeView) -> Result<RegionView, Error> {
        match change {
            RegionChangeView::Priority(p) => Ok(RegionView { priority: p, ..self }),
            RegionChangeView::Offset(o) => Ok(RegionView { offset: o, ..self }),
            RegionChangeView::Romd(b) => if self.region_type != RegionType::RomDevice {
                Err(Error::RegionType(self.region_type))
            } else {
                Ok(RegionView { rom_dev_romd: b, ..self })
            },
            RegionChangeView::IoEventFds(fds) => Ok(RegionView { io_evtfds: fds, ..self }),
            RegionChangeView::AddSubregion(child, offset) => match self.can_add(child, offset) {
                Ok(_) => Ok(self.with_child(child, offset)),
                Err(e) => Err(e),
            },
            RegionChangeView::DeleteSubregion(id, ty, offset) => match self.child_at(id, ty, 0) {
                Some(i) => Ok(RegionView { subregions: self.subregions.remove(i), ..self }),
                None => Err(Error::RegionNotFound(offset)),
            },
        }
    }

    /// This tree after `change` is made to the first region, in the
    /// order of rendering, that `id` names; nothing where `id` names no
    /// region of the tree.
    pub open spec fn changed(self, id: u64, change: RegionChangeView) -> Option<
        Result<RegionView, Error>,
    >
        decreases self, self.subregions.len() + 1,
    {
        if self.id == id {
            Some(self.applied(change))
        } else {
            self.changed_children(0, id, change)
        }
    }

    /// The same among the children from the `i`-th on.
    pub open spec fn changed_children(self, i: nat, id: u64, change: RegionChangeView) -> Option<
        Result<RegionView, Error>,
    >
        decreases self, self.subregions.len() - i,
    {
        if i >= self.subregions.len() {
            None
        } else {
            match self.subregions[i as int].changed(id, change) {
                Some(Ok(child)) => Some(
                    Ok(RegionView { subregions: self.subregions.update(i as int, child), ..self }),
                ),
                Some(Err(e)) => Some(Err(e)),
                None => self.changed_children(i + 1, id, change),
            }
        }
    }

    /// Whether a change of this kind can change the flat view.
    pub open spec fn moves(change: RegionChangeView) -> bool {
        !(change is Priority || change is IoEventFds)
    }

    /// Where a child of the given priority goes among `subs`: before the
    /// first child whose priority is not above it.
    pub open spec fn insert_position(subs: Seq<RegionView>, priority: i32) -> int
        decreases subs.len(),
    {
        if subs.len() == 0 || priority >= subs[0].priority {
            0
        } else {
            1 + RegionView::insert_position(subs.skip(1), priority)
        }
    }

    /// Whether `child` can be added to this region at `offset`, and the
    /// failure if it cannot.
    pub open spec fn can_add(self, child: RegionView, offset: u64) -> Result<(), Error> {
        if self.region_type != RegionType::Container {
            Err(Error::RegionType(self.region_type))
        } else if !self.holds(offset, child.size) {
            Err(Error::InvalidOffset(offset, child.size, self.size))
        } else {
            Ok(())
        }
    }

    /// This region with `child` added at `offset`.
    pub open spec fn with_child(self, child: RegionView, offset: u64) -> RegionView {
        RegionView {
            subregions: self.subregions.insert(
                RegionView::insert_position(self.subregions, child.priority),
                RegionView { offset, ..child },
            ),
            ..self
        }
    }
}

/// The place of a new child is the end of the run of children with a
/// higher priority.
pub proof fn lemma_insert_position(subs: Seq<RegionView>, priority: i32, index: int)
    requires
        0 <= index <= subs.len(),
        forall|k: int| 0 <= k < index ==> (#[trigger] subs[k]).priority > priority,
        index == subs.len() || priority >= subs[index].priority,
    ensures
        RegionView::insert_position(subs, priority) == index,
    decreases subs.len(),
{
    if index > 0 {
        let rest = subs.skip(1);
        assert(forall|k: int| 0 <= k < rest.len() ==> rest[k] == subs[k + 1]);
        assert(subs[0].priority > priority);
        lemma_insert_position(rest, priority, index - 1);
    }
}

/// Children in descending order of priority stay so when a child is added
/// at its place, and the new child stands before every child of its own
/// priority.
pub proof fn lemma_insert_sorted(subs: Seq<RegionView>, child: RegionView)
    requires
        forall|i: int, j: int| 0 <= i < j < subs.len() ==> subs[i].priority >= subs[j].priority,
    ensures
        ({
            let at = RegionView::insert_position(subs, child.priority);
            let after = subs.insert(at, child);
            &&& 0 <= at <= subs.len()
            &&& forall|i: int, j: int|
                0 <= i < j < after.len() ==> after[i].priority >= after[j].priority
            &&& forall|k: int| 0 <= k < at ==> subs[k].priority > child.priority
            &&& forall|k: int| at <= k < subs.len() ==> subs[k].priority <= child.priority
        }),
    decreases subs.len(),
{
    let at = RegionView::insert_position(subs, child.priority);
    if subs.len() > 0 && child.priority < subs[0].priority {
        let rest = subs.skip(1);
        assert(forall|k: int| 0 <= k < rest.len() ==> rest[k] == subs[k + 1]);
        lemma_insert_sorted(rest, child);
        let rest_at = RegionView::insert_position(rest, child.priority);
        assert(at == rest_at + 1);
        assert forall|k: int| 0 <= k < at implies subs[k].priority > child.priority by {
            if k > 0 {
                assert(rest[k - 1] == subs[k]);
            }
        }
        assert forall|k: int| at <= k < subs.len() implies subs[k].priority
            <= child.priority by {
            assert(rest[k - 1] == subs[k]);
        }
    } else {
        assert(at == 0);
        assert forall|k: int| at <= k < subs.len() implies subs[k].priority
            <= child.priority by {
            if k > 0 {
                assert(subs[0].priority >= subs[k].priority);
            }
        }
    }
    let after = subs.insert(at, child);
    assert forall|i: int, j: int| 0 <= i < j < after.len() implies after[i].priority
        >= after[j].priority by {
        if i < at && j > at {
            assert(after[i] == subs[i] && after[j] == subs[j - 1]);
        } else if i > at {
            assert(after[i] == subs[i - 1] && after[j] == subs[j - 1]);
        }
    }
}

} // verus!
