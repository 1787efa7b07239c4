use std::sync::Mutex;

use address_space::listener::{
    DataMatch, IoEventRequest, KvmMemoryRegion, KvmRequest, MemSlot, SlotRequest,
    KVM_LISTENER_PRIORITY, MEM_READ_ONLY,
};
use address_space::{
    AddressRange, AddressSpace, Error, FlatRange, GuestAddress, HostMemMapping, KvmIoListener,
    KvmMemoryListener, Listener, ListenerReqType, Region, RegionIoEventFd,
};

const PAGE_SIZE: u64 = 4096;
const HOST_BASE: u64 = 0x7f00_0000_0000;

fn create_ram_range(addr: u64, size: u64, offset_in_region: u64) -> FlatRange {
    let mem_mapping = HostMemMapping::new(GuestAddress(addr), HOST_BASE, size, None).unwrap();
    FlatRange {
        addr_range: AddressRange::new(
            mem_mapping.start_address().unchecked_add(offset_in_region),
            mem_mapping.size() - offset_in_region,
        ),
        owner: Region::init_ram_region(1, mem_mapping),
        offset_in_region,
        rom_dev_romd: None,
    }
}

fn slot_ranges_are_disjoint(slots: &[MemSlot]) -> bool {
    for (i, a) in slots.iter().enumerate() {
        for b in slots.iter().skip(i + 1) {
            let (a_end, b_end) = (a.guest_addr as u128 + a.size as u128, b.guest_addr as u128 + b.size as u128);
            if (a.guest_addr.max(b.guest_addr) as u128) < a_end.min(b_end) {
                return false;
            }
        }
    }
    true
}

#[test]
fn test_alloc_slot() {
    let mut kml = KvmMemoryListener::new(4);
    let host_addr = 0u64;

    assert_eq!(kml.get_free_slot(0, 100, host_addr).unwrap(), 0);
    assert_eq!(kml.get_free_slot(200, 100, host_addr).unwrap(), 1);
    assert_eq!(kml.get_free_slot(300, 100, host_addr).unwrap(), 2);
    assert_eq!(kml.get_free_slot(500, 100, host_addr).unwrap(), 3);
    assert!(kml.get_free_slot(200, 100, host_addr).is_err());
    // no available KVM mem slot
    assert!(kml.get_free_slot(600, 100, host_addr).is_err());

    kml.delete_slot(200, 100).unwrap();
    assert!(kml.delete_slot(150, 100).is_err());
    assert!(kml.delete_slot(700, 100).is_err());
    assert_eq!(kml.get_free_slot(200, 100, host_addr).unwrap(), 1);
}

#[test]
fn test_add_del_ram_region() {
    let mut kml = KvmMemoryListener::new(34);
    let ram_size = PAGE_SIZE;
    let ram_fr1 = create_ram_range(0, ram_size, 0);

    kml.handle_request(Some(&ram_fr1), None, ListenerReqType::AddRegion, PAGE_SIZE)
        .unwrap();
    // flat-range already added, adding again should make an error
    assert!(kml
        .handle_request(Some(&ram_fr1), None, ListenerReqType::AddRegion, PAGE_SIZE)
        .is_err());
    assert!(kml
        .handle_request(Some(&ram_fr1), None, ListenerReqType::DeleteRegion, PAGE_SIZE)
        .is_ok());
    // flat-range already deleted, deleting again should make an error
    assert!(kml
        .handle_request(Some(&ram_fr1), None, ListenerReqType::DeleteRegion, PAGE_SIZE)
        .is_ok());
}

#[test]
fn test_add_region_align() {
    let mut kml = KvmMemoryListener::new(34);
    // flat-range not aligned
    let page_size = PAGE_SIZE;
    let ram_fr2 = create_ram_range(page_size, 2 * page_size, 1000);
    assert!(kml
        .handle_request(Some(&ram_fr2), None, ListenerReqType::AddRegion, PAGE_SIZE)
        .is_ok());

    // flat-range size is zero after aligned, this step should make an error
    let ram_fr3 = create_ram_range(page_size, page_size, 1000);
    assert!(kml
        .handle_request(Some(&ram_fr3), None, ListenerReqType::AddRegion, PAGE_SIZE)
        .is_err());
}

#[test]
fn test_slot_errors() {
    let mut kml = KvmMemoryListener::new(2);
    assert_eq!(kml.get_free_slot(0, 100, 0), Ok(0));
    assert_eq!(
        kml.get_free_slot(50, 100, 0),
        Err(Error::KvmSlotOverlap(
            AddressRange::from((50, 100)),
            AddressRange::from((0, 100))
        ))
    );
    assert_eq!(kml.get_free_slot(100, 100, 7), Ok(1));
    assert_eq!(kml.get_free_slot(1000, 100, 0), Err(Error::NoAvailKvmSlot(2)));
    assert_eq!(kml.delete_slot(100, 99), Err(Error::NoMatchedKvmSlot(100, 99)));
    assert_eq!(
        kml.delete_slot(100, 100),
        Ok(MemSlot { index: 1, guest_addr: 100, size: 0, host_addr: 7, flag: 0 })
    );
    assert_eq!(
        kml.mem_slots(),
        &vec![
            MemSlot { index: 0, guest_addr: 0, size: 100, host_addr: 0, flag: 0 },
            MemSlot { index: 1, guest_addr: 100, size: 0, host_addr: 7, flag: 0 },
        ]
    );
    assert_eq!(KvmMemoryListener::new(0).get_free_slot(0, 1, 0), Err(Error::NoAvailKvmSlot(0)));
}

#[test]
fn test_align_mem_slot() {
    assert_eq!(
        KvmMemoryListener::align_mem_slot(AddressRange::from((0x1000, 0x2000)), 0x1000),
        Ok(AddressRange::from((0x1000, 0x2000)))
    );
    assert_eq!(
        KvmMemoryListener::align_mem_slot(AddressRange::from((0x1001, 0x2fff)), 0x1000),
        Ok(AddressRange::from((0x2000, 0x2000)))
    );
    assert_eq!(
        KvmMemoryListener::align_mem_slot(AddressRange::from((0x1001, 0x1ffe)), 0x1000),
        Err(Error::MemSlotEmpty(0x1001, 0x1ffe, 0x1000))
    );
    assert_eq!(
        KvmMemoryListener::align_mem_slot(AddressRange::from((0x1001, 0x10)), 0x1000),
        Err(Error::MemSlotEmpty(0x1001, 0x10, 0x1000))
    );
    assert_eq!(
        KvmMemoryListener::align_mem_slot(AddressRange::from((u64::MAX - 1, 1)), 0x1000),
        Err(Error::AddrAlignUp(u64::MAX - 1, 0x1000))
    );
    assert_eq!(
        KvmMemoryListener::align_mem_slot(AddressRange::from((0x1000, 0x1000)), 0),
        Err(Error::AddrAlignUp(0x1000, 0))
    );
}

#[test]
fn test_region_requests() {
    let mut kml = KvmMemoryListener::new(4);
    let ram = create_ram_range(PAGE_SIZE, 2 * PAGE_SIZE, 1000);
    let registered = KvmMemoryRegion {
        slot: 0,
        guest_phys_addr: 2 * PAGE_SIZE,
        memory_size: PAGE_SIZE,
        userspace_addr: HOST_BASE + PAGE_SIZE,
        flags: 0,
    };
    assert_eq!(kml.add_region(&ram, PAGE_SIZE), Ok(SlotRequest::Register(registered)));
    assert_eq!(
        kml.add_region(&ram, PAGE_SIZE),
        Err(Error::KvmSlotOverlap(
            AddressRange::from((2 * PAGE_SIZE, PAGE_SIZE)),
            AddressRange::from((2 * PAGE_SIZE, PAGE_SIZE))
        ))
    );
    assert_eq!(
        kml.delete_region(&ram, PAGE_SIZE),
        Ok(SlotRequest::Release(KvmMemoryRegion { memory_size: 0, ..registered }))
    );
    assert_eq!(kml.delete_region(&ram, PAGE_SIZE), Ok(SlotRequest::Nothing));

    // a region without host memory takes no slot
    let io = FlatRange {
        addr_range: AddressRange::from((0, PAGE_SIZE)),
        owner: Region::init_io_region(2, PAGE_SIZE),
        offset_in_region: 0,
        rom_dev_romd: None,
    };
    assert_eq!(kml.add_region(&io, PAGE_SIZE), Ok(SlotRequest::Nothing));
    assert_eq!(kml.delete_region(&io, PAGE_SIZE), Ok(SlotRequest::Nothing));

    // a ROM device is registered read-only, and gives up its slot in
    // callback mode
    let mapping = HostMemMapping::new(GuestAddress(0), HOST_BASE, PAGE_SIZE, None).unwrap();
    let mut rom = Region::init_rom_device_region(3, mapping);
    let rom_range = FlatRange {
        addr_range: AddressRange::from((0, PAGE_SIZE)),
        owner: rom.clone(),
        offset_in_region: 0,
        rom_dev_romd: Some(true),
    };
    let rom_region = KvmMemoryRegion {
        slot: 0,
        guest_phys_addr: 0,
        memory_size: PAGE_SIZE,
        userspace_addr: HOST_BASE,
        flags: MEM_READ_ONLY,
    };
    assert_eq!(kml.add_region(&rom_range, PAGE_SIZE), Ok(SlotRequest::Register(rom_region)));
    rom.set_rom_device_romd(false).unwrap();
    let io_mode = FlatRange { owner: rom, rom_dev_romd: Some(false), ..rom_range };
    assert_eq!(
        kml.add_region(&io_mode, PAGE_SIZE),
        Ok(SlotRequest::ReleaseQuietly(KvmMemoryRegion {
            memory_size: 0,
            flags: 0,
            ..rom_region
        }))
    );
    assert_eq!(kml.add_region(&io_mode, PAGE_SIZE), Ok(SlotRequest::Nothing));
}

#[test]
fn test_settle() {
    let mut kml = KvmMemoryListener::new(4);
    let ram = create_ram_range(0, PAGE_SIZE, 0);
    let request = kml
        .handle_request(Some(&ram), None, ListenerReqType::AddRegion, PAGE_SIZE)
        .unwrap();
    assert_eq!(kml.mem_slots()[0].size, PAGE_SIZE);
    // the hypervisor refuses: the slot is released again
    assert_eq!(
        kml.settle(&request, ListenerReqType::AddRegion, false),
        Err(Error::ListenerRequest(ListenerReqType::AddRegion))
    );
    assert_eq!(kml.mem_slots()[0].size, 0);
    let request = kml
        .handle_request(Some(&ram), None, ListenerReqType::AddRegion, PAGE_SIZE)
        .unwrap();
    assert_eq!(kml.settle(&request, ListenerReqType::AddRegion, true), Ok(()));
    assert_eq!(kml.mem_slots()[0].size, PAGE_SIZE);

    let released = KvmMemoryRegion {
        slot: 0,
        guest_phys_addr: 0,
        memory_size: 0,
        userspace_addr: HOST_BASE,
        flags: 0,
    };
    assert_eq!(
        kml.settle(
            &KvmRequest::Slot(SlotRequest::Release(released)),
            ListenerReqType::DeleteRegion,
            false
        ),
        Err(Error::ListenerRequest(ListenerReqType::DeleteRegion))
    );
    assert_eq!(
        kml.settle(
            &KvmRequest::Slot(SlotRequest::ReleaseQuietly(released)),
            ListenerReqType::AddRegion,
            false
        ),
        Ok(())
    );
    assert_eq!(
        kml.settle(&KvmRequest::Slot(SlotRequest::Nothing), ListenerReqType::AddRegion, false),
        Ok(())
    );
}

fn generate_region_ioeventfd(addr: u64, size: u64, data: u64) -> RegionIoEventFd {
    RegionIoEventFd {
        fd: 13,
        addr_range: AddressRange::from((addr, size)),
        data_match: data != 0,
        data,
    }
}

/// The event descriptors that a hypervisor holds: it refuses to register
/// a descriptor at an address where one is registered for the same
/// value or for any value, and to release one that it does not hold.
#[derive(Default)]
struct Hypervisor {
    registered: Vec<IoEventRequest>,
}

impl Hypervisor {
    fn answer(&mut self, request: &KvmRequest) -> bool {
        let wanted = match request {
            KvmRequest::IoEvent(wanted) => *wanted,
            KvmRequest::Slot(_) => return true,
        };
        let held = IoEventRequest { register: true, ..wanted };
        if wanted.register {
            let collides = self.registered.iter().any(|r| {
                r.port_io == held.port_io
                    && r.addr == held.addr
                    && (r.datamatch == DataMatch::Any
                        || held.datamatch == DataMatch::Any
                        || r.datamatch == held.datamatch)
            });
            if !collides {
                self.registered.push(held);
            }
            !collides
        } else {
            match self.registered.iter().position(|r| *r == held) {
                Some(at) => {
                    self.registered.remove(at);
                    true
                }
                None => false,
            }
        }
    }

    /// One request to the memory listener, with the call that it asks
    /// for answered by the hypervisor.
    fn serve(
        &mut self,
        kml: &mut KvmMemoryListener,
        evtfd: &RegionIoEventFd,
        req_type: ListenerReqType,
    ) -> Result<(), Error> {
        let request = kml.handle_request(None, Some(evtfd), req_type, PAGE_SIZE)?;
        let accepted = self.answer(&request);
        kml.settle(&request, req_type, accepted)
    }

    /// One request to the port listener, answered likewise.
    fn serve_ports(
        &mut self,
        iol: &KvmIoListener,
        evtfd: &RegionIoEventFd,
        req_type: ListenerReqType,
    ) -> Result<(), Error> {
        let request = iol.handle_request(None, Some(evtfd), req_type)?;
        if self.answer(&request) {
            Ok(())
        } else {
            Err(Error::ListenerRequest(req_type))
        }
    }
}

#[test]
fn test_add_del_ioeventfd() {
    let mut kvm = Hypervisor::default();
    let mut kml = KvmMemoryListener::new(34);
    let evtfd = generate_region_ioeventfd(4, 0, 0);
    assert!(kvm.serve(&mut kml, &evtfd, ListenerReqType::AddIoeventfd).is_ok());
    // The evtfd already added, adding again should make an error
    assert!(kvm.serve(&mut kml, &evtfd, ListenerReqType::AddIoeventfd).is_err());
    assert!(kvm.serve(&mut kml, &evtfd, ListenerReqType::DeleteIoeventfd).is_ok());
    // The evtfd already deleted, deleting again should cause an error
    assert!(kvm.serve(&mut kml, &evtfd, ListenerReqType::DeleteIoeventfd).is_err());

    // Register an ioeventfd with data-match
    let evtfd = generate_region_ioeventfd(64, 8, 4_u64);
    assert!(kvm.serve(&mut kml, &evtfd, ListenerReqType::AddIoeventfd).is_ok());

    // Register an ioeventfd which has same address with previously registered ones will cause an error
    let same_addred_evtfd = generate_region_ioeventfd(64, 8, 4_u64);
    assert!(kvm
        .serve(&mut kml, &same_addred_evtfd, ListenerReqType::AddIoeventfd)
        .is_err());

    assert!(kvm.serve(&mut kml, &evtfd, ListenerReqType::DeleteIoeventfd).is_ok());
}

#[test]
fn test_ioeventfd_with_data_match() {
    let mut kvm = Hypervisor::default();
    let mut kml = KvmMemoryListener::new(34);
    let evtfd_addr = 0x1000_u64;
    let mut evtfd = generate_region_ioeventfd(evtfd_addr, 4, 64);
    evtfd.addr_range.size = 3_u64;
    // Matched data's length must be 2, 4 or 8.
    assert!(kvm.serve(&mut kml, &evtfd, ListenerReqType::AddIoeventfd).is_err());

    let evtfd = generate_region_ioeventfd(evtfd_addr, 4, 64);
    assert!(kvm.serve(&mut kml, &evtfd, ListenerReqType::AddIoeventfd).is_ok());

    // Delete ioeventfd with wrong address will cause an error.
    let mut evtfd_to_del = evtfd.try_clone().unwrap();
    evtfd_to_del.addr_range.base.0 = evtfd_to_del.addr_range.base.0 - 2;
    assert!(kvm
        .serve(&mut kml, &evtfd_to_del, ListenerReqType::DeleteIoeventfd)
        .is_err());

    // Delete ioeventfd with inconsistent data-match will cause error.
    let mut evtfd_to_del = evtfd.try_clone().unwrap();
    evtfd_to_del.data_match = false;
    assert!(kvm
        .serve(&mut kml, &evtfd_to_del, ListenerReqType::DeleteIoeventfd)
        .is_err());

    // Delete ioeventfd with inconsistent matched data will cause an error.
    let mut evtfd_to_del = evtfd.try_clone().unwrap();
    evtfd_to_del.data = 128_u64;
    assert!(kvm
        .serve(&mut kml, &evtfd_to_del, ListenerReqType::DeleteIoeventfd)
        .is_err());

    // Delete it successfully.
    assert!(kvm.serve(&mut kml, &evtfd, ListenerReqType::DeleteIoeventfd).is_ok());

    // Delete a not-exist ioeventfd will cause an error.
    assert!(kvm.serve(&mut kml, &evtfd, ListenerReqType::DeleteIoeventfd).is_err());
}

#[test]
fn test_kvm_io_listener() {
    let mut kvm = Hypervisor::default();
    let iol = KvmIoListener::default();
    let evtfd = generate_region_ioeventfd(4, 0, 0);
    assert!(kvm.serve_ports(&iol, &evtfd, ListenerReqType::AddIoeventfd).is_ok());
    // evtfd already added, adding again should make an error
    assert!(kvm.serve_ports(&iol, &evtfd, ListenerReqType::AddIoeventfd).is_err());
    assert!(kvm.serve_ports(&iol, &evtfd, ListenerReqType::DeleteIoeventfd).is_ok());
    // evtfd already deleted, deleting again should make an error
    assert!(kvm.serve_ports(&iol, &evtfd, ListenerReqType::DeleteIoeventfd).is_err());

    // Matched data's length must be 2, 4 or 8.
    let mut evtfd_match = generate_region_ioeventfd(4, 4, 64);
    evtfd_match.addr_range.size = 3;
    assert!(kvm
        .serve_ports(&iol, &evtfd_match, ListenerReqType::AddIoeventfd)
        .is_err());
    evtfd_match.addr_range.size = 4;
    assert!(kvm
        .serve_ports(&iol, &evtfd_match, ListenerReqType::AddIoeventfd)
        .is_ok());
}

#[test]
fn test_ioeventfd_requests() {
    let mut kml = KvmMemoryListener::new(34);
    let evtfd = generate_region_ioeventfd(4, 4, 0);
    assert_eq!(
        kml.handle_request(None, Some(&evtfd), ListenerReqType::AddIoeventfd, PAGE_SIZE),
        Ok(KvmRequest::IoEvent(IoEventRequest {
            fd: 13,
            port_io: false,
            addr: 4,
            datamatch: DataMatch::Any,
            register: true,
        }))
    );
    assert_eq!(
        kml.handle_request(None, Some(&evtfd), ListenerReqType::DeleteIoeventfd, PAGE_SIZE),
        Ok(KvmRequest::IoEvent(IoEventRequest {
            fd: 13,
            port_io: false,
            addr: 4,
            datamatch: DataMatch::Any,
            register: false,
        }))
    );

    // Matched data's length must be 2, 4 or 8.
    let mut evtfd = generate_region_ioeventfd(0x1000, 4, 64);
    evtfd.addr_range.size = 3;
    assert_eq!(kml.add_ioeventfd(&evtfd), Err(Error::IoEventFdLength(3)));
    assert_eq!(
        kml.handle_request(None, Some(&evtfd), ListenerReqType::AddIoeventfd, PAGE_SIZE),
        Err(Error::ListenerRequest(ListenerReqType::AddIoeventfd))
    );
    assert_eq!(
        kml.handle_request(None, None, ListenerReqType::AddIoeventfd, PAGE_SIZE),
        Err(Error::ListenerRequest(ListenerReqType::AddIoeventfd))
    );
    assert_eq!(
        kml.handle_request(None, None, ListenerReqType::DeleteRegion, PAGE_SIZE),
        Err(Error::ListenerRequest(ListenerReqType::DeleteRegion))
    );

    let wide = 0x1_2345_6789_abcd_u64;
    for (size, expected) in [
        (2u64, DataMatch::Word(0xabcd)),
        (4, DataMatch::DWord(0x6789_abcd)),
        (8, DataMatch::QWord(wide)),
    ] {
        let evtfd = generate_region_ioeventfd(0x1000, size, wide);
        assert_eq!(kml.add_ioeventfd(&evtfd).unwrap().datamatch, expected);
        assert_eq!(kml.delete_ioeventfd(&evtfd).unwrap().datamatch, expected);
    }
    assert_eq!(kml.priority(), 10);
    assert_eq!(KVM_LISTENER_PRIORITY, 10);
}

#[test]
fn test_io_listener_requests() {
    let iol = KvmIoListener::default();
    let evtfd = generate_region_ioeventfd(4, 4, 0);
    assert_eq!(
        iol.handle_request(None, Some(&evtfd), ListenerReqType::AddIoeventfd),
        Ok(KvmRequest::IoEvent(IoEventRequest {
            fd: 13,
            port_io: true,
            addr: 4,
            datamatch: DataMatch::Any,
            register: true,
        }))
    );
    assert_eq!(
        iol.handle_request(None, Some(&evtfd), ListenerReqType::DeleteIoeventfd),
        Ok(KvmRequest::IoEvent(IoEventRequest {
            fd: 13,
            port_io: true,
            addr: 4,
            datamatch: DataMatch::Any,
            register: false,
        }))
    );
    // Matched data's length must be 2, 4 or 8.
    let mut evtfd_match = generate_region_ioeventfd(4, 4, 64);
    evtfd_match.addr_range.size = 3;
    assert!(iol
        .handle_request(None, Some(&evtfd_match), ListenerReqType::AddIoeventfd)
        .is_err());
    evtfd_match.addr_range.size = 4;
    assert_eq!(
        iol.add_ioeventfd(&evtfd_match).unwrap().datamatch,
        DataMatch::DWord(64)
    );
    assert!(iol
        .handle_request(None, None, ListenerReqType::DeleteIoeventfd)
        .is_err());
    // region requests are none of its business
    let ram = create_ram_range(0, PAGE_SIZE, 0);
    assert_eq!(
        iol.handle_request(Some(&ram), None, ListenerReqType::AddRegion),
        Ok(KvmRequest::Slot(SlotRequest::Nothing))
    );
    assert_eq!(iol.priority(), 10);
}

/// A memory-slot listener as an address space sees it: the table behind
/// a lock, every call of the hypervisor taken as accepted, and a count of
/// the requests that failed.
struct SlotListener {
    table: Mutex<KvmMemoryListener>,
    failures: Mutex<Vec<ListenerReqType>>,
}

impl Listener for SlotListener {
    fn priority(&self) -> i32 {
        KVM_LISTENER_PRIORITY
    }

    fn handle_request(
        &self,
        range: Option<&FlatRange>,
        evtfd: Option<&RegionIoEventFd>,
        req_type: ListenerReqType,
    ) -> Result<(), Error> {
        let mut table = self.table.lock().unwrap();
        let outcome = table.handle_request(range, evtfd, req_type, PAGE_SIZE);
        assert!(slot_ranges_are_disjoint(table.mem_slots()));
        match outcome {
            Ok(request) => table.settle(&request, req_type, true),
            Err(e) => {
                self.failures.lock().unwrap().push(req_type);
                Err(e)
            }
        }
    }
}

#[test]
fn test_no_transient_overlap() {
    let root = Region::init_container_region(1, 64 * PAGE_SIZE);
    let mut space = AddressSpace::new(root).unwrap();
    space
        .register_listener(SlotListener {
            table: Mutex::new(KvmMemoryListener::new(8)),
            failures: Mutex::new(Vec::new()),
        })
        .unwrap();

    // memory of 8 pages, then a device over its middle, then memory of a
    // higher priority that grows into what the first memory held
    let low = HostMemMapping::new(GuestAddress(0), HOST_BASE, 8 * PAGE_SIZE, None).unwrap();
    space.add_subregion(1, Region::init_ram_region(2, low), 0).unwrap();
    let mut device = Region::init_io_region(3, 2 * PAGE_SIZE);
    device.set_priority(1);
    space.add_subregion(1, device.clone(), 3 * PAGE_SIZE).unwrap();
    let high = HostMemMapping::new(GuestAddress(0), HOST_BASE + (1 << 30), 4 * PAGE_SIZE, None)
        .unwrap();
    let mut upper = Region::init_ram_region(4, high);
    upper.set_priority(2);
    space.add_subregion(1, upper.clone(), 2 * PAGE_SIZE).unwrap();
    device.set_offset(GuestAddress(3 * PAGE_SIZE));
    space.delete_subregion(1, &device).unwrap();
    upper.set_offset(GuestAddress(2 * PAGE_SIZE));
    space.delete_subregion(1, &upper).unwrap();

    let listener = space.unregister_listener(0).unwrap();
    assert_eq!(listener.failures.lock().unwrap().len(), 0);
    // every slot has been given up again
    assert!(listener.table.lock().unwrap().mem_slots().iter().all(|s| s.size == 0));
}
