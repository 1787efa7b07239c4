use std::sync::{Arc, Mutex};

use address_space::region::RegionAccess;
use address_space::{
    AddressRange, AddressSpace, Error, FlatRange, GuestAddress, HostMemMapping, Listener,
    ListenerReqType, Region, RegionCache, RegionIoEventFd, RegionType,
};

const ROOT: u64 = 1;
const HOST_1: u64 = 0x7f00_0000_0000;
const HOST_2: u64 = 0x7f00_1000_0000;

#[derive(Default, Clone)]
struct TestListener {
    reqs: Arc<Mutex<Vec<(ListenerReqType, AddressRange)>>>,
}

impl Listener for TestListener {
    fn priority(&self) -> i32 {
        2
    }

    fn handle_request(
        &self,
        range: Option<&FlatRange>,
        eventfd: Option<&RegionIoEventFd>,
        req_type: ListenerReqType,
    ) -> Result<(), Error> {
        match req_type {
            ListenerReqType::AddRegion | ListenerReqType::DeleteRegion => {
                self.reqs
                    .lock()
                    .unwrap()
                    .push((req_type, range.unwrap().addr_range));
            }
            ListenerReqType::AddIoeventfd | ListenerReqType::DeleteIoeventfd => {
                self.reqs
                    .lock()
                    .unwrap()
                    .push((req_type, eventfd.unwrap().addr_range));
            }
        }
        Ok(())
    }
}

/// A listener with a priority of its own, which writes what it is asked
/// into a record that it shares with the other listeners of the test.
#[derive(Clone)]
struct Ranked {
    priority: i32,
    fail_on: Option<ListenerReqType>,
    record: Arc<Mutex<Vec<(i32, ListenerReqType, u64)>>>,
    switches: Arc<Mutex<Vec<(i32, bool)>>>,
}

impl Ranked {
    fn new(priority: i32, record: &Arc<Mutex<Vec<(i32, ListenerReqType, u64)>>>) -> Self {
        Ranked {
            priority,
            fail_on: None,
            record: record.clone(),
            switches: Arc::new(Mutex::new(Vec::new())),
        }
    }
}

impl Listener for Ranked {
    fn priority(&self) -> i32 {
        self.priority
    }

    fn enable(&mut self) {
        self.switches.lock().unwrap().push((self.priority, true));
    }

    fn disable(&mut self) {
        self.switches.lock().unwrap().push((self.priority, false));
    }

    fn handle_request(
        &self,
        range: Option<&FlatRange>,
        eventfd: Option<&RegionIoEventFd>,
        req_type: ListenerReqType,
    ) -> Result<(), Error> {
        let addr = match range {
            Some(fr) => fr.addr_range.base.0,
            None => eventfd.unwrap().addr_range.base.0,
        };
        self.record.lock().unwrap().push((self.priority, req_type, addr));
        if self.fail_on == Some(req_type) {
            return Err(Error::ListenerRequest(req_type));
        }
        Ok(())
    }
}

// the listeners in AddressSpace is settled in ascending order by priority
#[test]
fn test_listeners() {
    struct Prior(i32);
    impl Listener for Prior {
        fn priority(&self) -> i32 {
            self.0
        }
    }

    let root = Region::init_container_region(ROOT, 8000);
    let mut space = AddressSpace::new(root).unwrap();
    let listener1 = Prior(0);
    let listener2 = Prior(0);
    let listener3 = Prior(3);
    let listener4 = Prior(4);
    let listener5 = Prior(-1);
    space.register_listener(listener1).unwrap();
    space.register_listener(listener3).unwrap();
    space.register_listener(listener5).unwrap();
    space.register_listener(listener2).unwrap();
    space.register_listener(listener4).unwrap();

    let mut pre_prior = std::i32::MIN;
    for curr in space.listener_priorities().iter() {
        assert!(pre_prior <= *curr);
        pre_prior = *curr;
    }
    assert_eq!(space.listener_priorities(), &vec![-1, 0, 0, 3, 4]);
}

#[test]
fn test_update_topology() {
    let root = Region::init_container_region(ROOT, 8000);
    let mut space = AddressSpace::new(root.clone()).unwrap();
    let listener = TestListener::default();
    space.register_listener(listener.clone()).unwrap();

    // memory region layout
    //        0      1000   2000   3000   4000   5000   6000   7000   8000
    //        |------|------|------|------|------|------|------|------|
    //  C:    [CCCCCCCCCCCCCCCCCCCCCCCCCCCCCCCCCCCCCCCCC]
    //  B:                  [                           ]
    //
    // the flat_view is as follows, region-b is container which will not appear in the flat-view
    //        [CCCCCCCCCCCCCCCCCCCCCCCCCCCCCCCCCCCCCCCC]
    let mut region_b = Region::init_container_region(2, 4000);
    let mut region_c = Region::init_io_region(3, 6000);
    region_b.set_priority(2);
    region_c.set_priority(1);
    space.add_subregion(ROOT, region_b.clone(), 2000).unwrap();
    space.add_subregion(ROOT, region_c.clone(), 0).unwrap();

    assert_eq!(space.flat_view().0.len(), 1);
    assert_eq!(listener.reqs.lock().unwrap().len(), 1);
    assert_eq!(
        listener.reqs.lock().unwrap().get(0).unwrap().1,
        AddressRange::new(region_c.offset(), region_c.size())
    );
    listener.reqs.lock().unwrap().clear();

    // region layout
    //        0      1000   2000   3000   4000   5000   6000   7000   8000
    //        |------|------|------|------|------|------|------|------|
    //  C:    [CCCCCCCCCCCCCCCCCCCCCCCCCCCCCCCCCCCCCCCCC]
    //  B:                  [                           ]
    //  D:                  [DDDDDD]
    // the flat_view is as follows,
    //        [CCCCCCCCCCCC][DDDDDD][CCCCCCCCCCCCCCCCCCC]
    let region_d = Region::init_io_region(4, 1000);
    space.add_subregion(region_b.id(), region_d.clone(), 0).unwrap();

    assert_eq!(space.flat_view().0.len(), 3);
    assert_eq!(listener.reqs.lock().unwrap().len(), 4);
    // delete flat-range 0~6000 first, belonging to region_c
    assert_eq!(
        listener.reqs.lock().unwrap().get(0).unwrap().1,
        AddressRange::new(region_c.offset(), region_c.size())
    );
    // add range 0~2000, belonging to region_c
    assert_eq!(
        listener.reqs.lock().unwrap().get(1).unwrap().1,
        AddressRange::new(region_c.offset(), 2000)
    );
    // add range 2000~3000, belonging to region_d
    let region_d_range = AddressRange::new(GuestAddress(2000), region_d.size());
    assert_eq!(
        listener.reqs.lock().unwrap().get(2).unwrap().1,
        region_d_range
    );
    // add range 3000~6000, belonging to region_c
    assert_eq!(
        listener.reqs.lock().unwrap().get(3).unwrap().1,
        AddressRange::from((3000, 3000))
    );
}

#[test]
fn test_update_ioeventfd() {
    let ioeventfds = vec![RegionIoEventFd {
        fd: 7,
        addr_range: AddressRange::from((0, std::mem::size_of::<u32>() as u64)),
        data_match: true,
        data: 64_u64,
    }];

    // region layout
    //        0      1000   2000   3000   4000   5000   6000   7000   8000
    //        |------|------|------|------|------|------|------|------|
    //  b:           [BBBBBBBBBBBBB]
    //  c:                  [CCCCCCCCCCCCC]
    // the flat_view is as follows,
    //               [BBBBBBBBBBBBB][CCCCC]
    let root = Region::init_container_region(ROOT, 8000);
    let mut space = AddressSpace::new(root.clone()).unwrap();
    let listener = TestListener::default();
    space.register_listener(listener.clone()).unwrap();

    let mut region_b = Region::init_io_region(2, 2000);
    region_b.set_priority(1);
    region_b.set_ioeventfds(&ioeventfds);
    let mut region_c = Region::init_io_region(3, 2000);
    region_c.set_ioeventfds(&ioeventfds);
    space.add_subregion(ROOT, region_c, 2000).unwrap();

    assert_eq!(listener.reqs.lock().unwrap().len(), 2);
    assert_eq!(
        listener.reqs.lock().unwrap().get(1).unwrap().1,
        AddressRange::new(GuestAddress(2000), 4)
    );
    listener.reqs.lock().unwrap().clear();

    space.add_subregion(ROOT, region_b, 1000).unwrap();
    let reqs = listener.reqs.lock().unwrap();
    assert_eq!(reqs.len(), 5);
    // add ioeventfd of region_b
    assert_eq!(
        reqs.get(3).unwrap().1,
        AddressRange::new(GuestAddress(1000), 4)
    );
    // ioeventfd in region_c is shawdowed, delete it
    assert_eq!(
        reqs.get(4).unwrap().1,
        AddressRange::new(GuestAddress(2000), 4)
    );
}

#[test]
fn test_subregion_ioeventfd() {
    let ioeventfds = vec![RegionIoEventFd {
        fd: 7,
        addr_range: AddressRange::from((0, 4)),
        data_match: true,
        data: 0_64,
    }];

    // region layout
    //        0      1000   2000   3000   4000   5000   6000   7000   8000
    //        |------|------|------|------|------|------|------|------|
    //  b:           [                                  ]
    //  c:                  [CCCCCC]
    // the flat_view is as follows,
    //                      [CCCCCC]
    let root = Region::init_container_region(ROOT, 8000);
    let mut space = AddressSpace::new(root.clone()).unwrap();
    let listener = TestListener::default();
    space.register_listener(listener.clone()).unwrap();

    let mut region_b = Region::init_container_region(2, 5000);
    let mut region_c = Region::init_io_region(3, 1000);
    region_c.set_ioeventfds(&ioeventfds);
    region_b.add_subregion(region_c, 1000).unwrap();

    space.add_subregion(ROOT, region_b, 1000).unwrap();

    let reqs = listener.reqs.lock().unwrap();
    assert!(reqs.get(1).is_some());
    assert_eq!(
        reqs.get(1).unwrap().1,
        AddressRange::new(GuestAddress(2000), 4)
    );
}

#[test]
fn test_get_ram_info() {
    let root = Region::init_container_region(ROOT, 8000);
    let mut space: AddressSpace<TestListener> = AddressSpace::new(root.clone()).unwrap();

    let ram1 = HostMemMapping::new(GuestAddress(0), HOST_1, 1000, None).unwrap();
    let ram2 = HostMemMapping::new(GuestAddress(2000), HOST_2, 1000, None).unwrap();
    let region_a = Region::init_ram_region(2, ram1);
    let region_b = Region::init_ram_region(3, ram2);
    space
        .add_subregion(ROOT, region_a, ram1.start_address().raw_value())
        .unwrap();
    space
        .add_subregion(ROOT, region_b, ram2.start_address().raw_value())
        .unwrap();

    assert_eq!(
        space.memory_end_address(),
        ram2.start_address().unchecked_add(ram2.size())
    );
    assert!(space.address_in_memory(GuestAddress(0), 0));
    assert_eq!(space.address_in_memory(GuestAddress(1000), 0), false);
    assert_eq!(space.address_in_memory(GuestAddress(1500), 0), false);
    assert!(space.address_in_memory(GuestAddress(2900), 0));

    assert_eq!(
        space.get_host_address(GuestAddress(500)),
        Some(ram1.host_address() + 500)
    );
    assert_eq!(
        space.get_host_address(GuestAddress(2500)),
        Some(ram2.host_address() + 500)
    );

    // region layout
    //        0      1000   2000   3000   4000   5000   6000   7000   8000
    //        |------|------|------|------|------|------|------|------|
    //  a:    [AAAAAA]
    //  b:                  [BBBBBB]
    //  c:            [CCCCCCCCC]
    // the flat_view is as follows,
    //        [AAAAAA][CCCCCCCCC][BB]
    let mut region_c = Region::init_io_region(4, 1500);
    region_c.set_priority(1);
    space.add_subregion(ROOT, region_c, 1000).unwrap();

    assert_eq!(
        space.memory_end_address(),
        ram2.start_address().unchecked_add(ram2.size())
    );
    assert!(space.address_in_memory(GuestAddress(0), 0));
    assert_eq!(space.address_in_memory(GuestAddress(1000), 0), false);
    assert_eq!(space.address_in_memory(GuestAddress(1500), 0), false);
    assert_eq!(space.address_in_memory(GuestAddress(2400), 0), false);
    assert!(space.address_in_memory(GuestAddress(2900), 0));

    assert_eq!(
        space.get_host_address(GuestAddress(500)),
        Some(ram1.host_address() + 500)
    );
    assert!(space.get_host_address(GuestAddress(2400)).is_none());
    assert_eq!(
        space.get_host_address(GuestAddress(2500)),
        Some(ram2.host_address() + 500)
    );
}

#[test]
fn test_write_and_read_object() {
    let root = Region::init_container_region(ROOT, 8000);
    let mut space: AddressSpace<TestListener> = AddressSpace::new(root.clone()).unwrap();
    let ram1 = HostMemMapping::new(GuestAddress(0), HOST_1, 1000, None).unwrap();
    let mut host = vec![0u8; 1000];
    let region_a = Region::init_ram_region(2, ram1);
    space
        .add_subregion(ROOT, region_a, ram1.start_address().raw_value())
        .unwrap();

    let data: u64 = 10000;
    let write = space.write_object(&data.to_le_bytes(), GuestAddress(992));
    assert!(write.is_ok());
    match write.unwrap() {
        RegionAccess::Memory { host_addr, count } => {
            let at = (host_addr - HOST_1) as usize;
            host[at..at + count as usize].copy_from_slice(&data.to_le_bytes());
        }
        RegionAccess::Device { .. } => panic!("device access to memory"),
    }
    let read = space.read_object(GuestAddress(992), std::mem::size_of::<u64>());
    let data1: u64 = match read.unwrap() {
        RegionAccess::Memory { host_addr, count } => {
            let at = (host_addr - HOST_1) as usize;
            let mut bytes = [0u8; 8];
            bytes.copy_from_slice(&host[at..at + count as usize]);
            u64::from_le_bytes(bytes)
        }
        RegionAccess::Device { .. } => panic!("device access to memory"),
    };
    assert_eq!(data1, 10000);
    assert!(space
        .write_object(&data.to_le_bytes(), GuestAddress(993))
        .is_err());
}

#[test]
fn test_access_without_region() {
    let root = Region::init_container_region(ROOT, 8000);
    let mut space: AddressSpace<TestListener> = AddressSpace::new(root).unwrap();
    space
        .add_subregion(ROOT, Region::init_io_region(2, 1000), 1000)
        .unwrap();
    assert_eq!(
        space.read(GuestAddress(999), 1),
        Err(Error::RegionNotFound(999))
    );
    assert_eq!(
        space.write(GuestAddress(2000), 1),
        Err(Error::RegionNotFound(2000))
    );
    assert_eq!(
        space.read(GuestAddress(1990), 4),
        Ok(RegionAccess::Device { region: 2, base: GuestAddress(1000), offset: 990, count: 4 })
    );
    assert_eq!(
        space.write(GuestAddress(1000), 4),
        Ok(RegionAccess::Device { region: 2, base: GuestAddress(1000), offset: 0, count: 4 })
    );
    assert_eq!(
        space.write(GuestAddress(1998), 4),
        Err(Error::InvalidOffset(998, 4, 1000))
    );
    assert_eq!(space.get_region_cache(GuestAddress(0)), None);
    assert_eq!(
        space.get_region_cache(GuestAddress(1500)),
        Some(RegionCache { reg_type: RegionType::IO, host_base: 0, start: 1000, end: 2000 })
    );
    assert_eq!(space.memory_end_address(), GuestAddress(0));
    let default_cache = RegionCache::default();
    assert_eq!(default_cache.reg_type, RegionType::Ram);
    assert_eq!((default_cache.host_base, default_cache.start, default_cache.end), (0, 0, 0));
}

#[test]
fn test_host_address_round_trip() {
    let root = Region::init_container_region(ROOT, 0x10_0000);
    let mut space: AddressSpace<TestListener> = AddressSpace::new(root).unwrap();
    let base = 0x4000u64;
    let size = 0x3000u64;
    let mapping = HostMemMapping::new(GuestAddress(base), HOST_1, size, None).unwrap();
    space
        .add_subregion(ROOT, Region::init_ram_region(2, mapping), base)
        .unwrap();
    // a device shadows the second page of the memory
    let mut device = Region::init_io_region(3, 0x1000);
    device.set_priority(1);
    space.add_subregion(ROOT, device, base + 0x1000).unwrap();

    for addr in [base, base + 1, base + 0xfff, base + 0x2000, base + size - 1] {
        assert_eq!(
            space.get_host_address(GuestAddress(addr)),
            Some(HOST_1 + (addr - base))
        );
    }
    for addr in [0, base - 1, base + 0x1000, base + 0x1fff, base + size, u64::MAX] {
        assert_eq!(space.get_host_address(GuestAddress(addr)), None);
    }
    assert_eq!(
        space.get_region_cache(GuestAddress(base + 0x2800)),
        Some(RegionCache {
            reg_type: RegionType::Ram,
            host_base: HOST_1 + 0x2000,
            start: base + 0x2000,
            end: base + size,
        })
    );
    assert!(space.address_in_memory(GuestAddress(base + 0x2000), 0x1000));
    assert!(!space.address_in_memory(GuestAddress(base + 0x2000), 0x1001));
    assert_eq!(space.memory_end_address(), GuestAddress(base + size));
}

#[test]
fn test_one_owner_changed() {
    let record = Arc::new(Mutex::new(Vec::new()));
    let root = Region::init_container_region(ROOT, 8000);
    let mut space = AddressSpace::new(root).unwrap();
    space.register_listener(Ranked::new(0, &record)).unwrap();
    for (id, offset) in [(2u64, 0u64), (3, 1000), (4, 2000)] {
        space
            .add_subregion(ROOT, Region::init_io_region(id, 1000), offset)
            .unwrap();
    }
    record.lock().unwrap().clear();
    // another region takes the place of the one in the middle
    let mut other = Region::init_io_region(5, 1000);
    other.set_priority(1);
    space.add_subregion(ROOT, other, 1000).unwrap();
    assert_eq!(
        *record.lock().unwrap(),
        vec![
            (0, ListenerReqType::DeleteRegion, 1000),
            (0, ListenerReqType::AddRegion, 1000)
        ]
    );
    let owners: Vec<u64> = space.flat_view().0.iter().map(|fr| fr.owner.id()).collect();
    assert_eq!(owners, vec![2, 5, 4]);
}

#[test]
fn test_notification_directions() {
    let record = Arc::new(Mutex::new(Vec::new()));
    let root = Region::init_container_region(ROOT, 8000);
    let mut space = AddressSpace::new(root).unwrap();
    space.register_listener(Ranked::new(5, &record)).unwrap();
    space.register_listener(Ranked::new(-3, &record)).unwrap();
    space.register_listener(Ranked::new(10, &record)).unwrap();

    let fds = vec![RegionIoEventFd {
        fd: 9,
        addr_range: AddressRange::from((8, 4)),
        data_match: false,
        data: 0,
    }];
    let mut device = Region::init_io_region(2, 1000);
    device.set_ioeventfds(&fds);
    space.add_subregion(ROOT, device.clone(), 4000).unwrap();
    assert_eq!(
        *record.lock().unwrap(),
        vec![
            (-3, ListenerReqType::AddRegion, 4000),
            (5, ListenerReqType::AddRegion, 4000),
            (10, ListenerReqType::AddRegion, 4000),
            (10, ListenerReqType::AddIoeventfd, 4008),
            (5, ListenerReqType::AddIoeventfd, 4008),
            (-3, ListenerReqType::AddIoeventfd, 4008),
        ]
    );
    assert_eq!(space.ioeventfds().len(), 1);
    assert_eq!(space.ioeventfds()[0].addr_range, AddressRange::from((4008, 4)));
    record.lock().unwrap().clear();

    device.set_offset(GuestAddress(4000));
    space.delete_subregion(ROOT, &device).unwrap();
    assert_eq!(
        *record.lock().unwrap(),
        vec![
            (10, ListenerReqType::DeleteRegion, 4000),
            (5, ListenerReqType::DeleteRegion, 4000),
            (-3, ListenerReqType::DeleteRegion, 4000),
            (-3, ListenerReqType::DeleteIoeventfd, 4008),
            (5, ListenerReqType::DeleteIoeventfd, 4008),
            (10, ListenerReqType::DeleteIoeventfd, 4008),
        ]
    );
    assert_eq!(space.flat_view().0.len(), 0);
    assert_eq!(space.ioeventfds().len(), 0);
}

#[test]
fn test_update_is_idempotent() {
    let record = Arc::new(Mutex::new(Vec::new()));
    let root = Region::init_container_region(ROOT, 8000);
    let mut space = AddressSpace::new(root).unwrap();
    space.register_listener(Ranked::new(0, &record)).unwrap();
    let fds = vec![
        RegionIoEventFd { fd: 9, addr_range: AddressRange::from((8, 4)), data_match: true, data: 3 },
        RegionIoEventFd { fd: 9, addr_range: AddressRange::from((0, 4)), data_match: false, data: 0 },
        RegionIoEventFd { fd: 9, addr_range: AddressRange::from((5000, 4)), data_match: false, data: 0 },
    ];
    let mut device = Region::init_io_region(2, 1000);
    device.set_ioeventfds(&fds);
    space.add_subregion(ROOT, device, 4000).unwrap();
    // the descriptor outside the region is not active
    assert_eq!(space.ioeventfds().len(), 2);
    record.lock().unwrap().clear();
    space.update_topology().unwrap();
    space.update_topology().unwrap();
    assert_eq!(record.lock().unwrap().len(), 0);
}

#[test]
fn test_failing_listener_ends_the_update() {
    let record = Arc::new(Mutex::new(Vec::new()));
    let root = Region::init_container_region(ROOT, 8000);
    let mut space = AddressSpace::new(root).unwrap();
    space.register_listener(Ranked::new(1, &record)).unwrap();
    let mut failing = Ranked::new(2, &record);
    failing.fail_on = Some(ListenerReqType::AddRegion);
    space.register_listener(failing).unwrap();
    space.register_listener(Ranked::new(3, &record)).unwrap();

    let outcome = space.add_subregion(ROOT, Region::init_io_region(2, 1000), 4000);
    assert_eq!(
        outcome,
        Err(Error::UpdateTopology(4000, 1000, RegionType::IO))
    );
    assert_eq!(
        *record.lock().unwrap(),
        vec![
            (1, ListenerReqType::AddRegion, 4000),
            (2, ListenerReqType::AddRegion, 4000)
        ]
    );
    // the tree holds the region, the view in force does not
    assert_eq!(space.root().subregions().len(), 1);
    assert_eq!(space.flat_view().0.len(), 0);
}

#[test]
fn test_register_replays_view() {
    let record = Arc::new(Mutex::new(Vec::new()));
    let root = Region::init_container_region(ROOT, 8000);
    let mut space = AddressSpace::new(root).unwrap();
    space
        .add_subregion(ROOT, Region::init_io_region(2, 1000), 0)
        .unwrap();
    space
        .add_subregion(ROOT, Region::init_io_region(3, 1000), 3000)
        .unwrap();
    let late = Ranked::new(7, &record);
    let switches = late.switches.clone();
    space.register_listener(late).unwrap();
    assert_eq!(
        *record.lock().unwrap(),
        vec![
            (7, ListenerReqType::AddRegion, 0),
            (7, ListenerReqType::AddRegion, 3000)
        ]
    );
    assert_eq!(*switches.lock().unwrap(), vec![(7, true)]);
    record.lock().unwrap().clear();

    assert_eq!(
        space.unregister_listener(3).err(),
        Some(Error::ListenerRequest(ListenerReqType::DeleteRegion))
    );
    let gone = space.unregister_listener(0).unwrap();
    assert_eq!(gone.priority, 7);
    assert_eq!(
        *record.lock().unwrap(),
        vec![
            (7, ListenerReqType::DeleteRegion, 0),
            (7, ListenerReqType::DeleteRegion, 3000)
        ]
    );
    assert_eq!(*switches.lock().unwrap(), vec![(7, true), (7, false)]);
    assert_eq!(space.listener_priorities().len(), 0);

    // a listener that refuses a range is not registered
    let mut refusing = Ranked::new(1, &record);
    refusing.fail_on = Some(ListenerReqType::AddRegion);
    assert_eq!(
        space.register_listener(refusing),
        Err(Error::ListenerRequest(ListenerReqType::AddRegion))
    );
    assert_eq!(space.listener_priorities().len(), 0);
}

#[test]
fn test_example_topology() {
    let record = Arc::new(Mutex::new(Vec::new()));
    let root = Region::init_container_region(ROOT, 8000);
    let mut space = AddressSpace::new(root).unwrap();
    space.register_listener(Ranked::new(0, &record)).unwrap();

    let mut region_c = Region::init_io_region(2, 6000);
    region_c.set_priority(1);
    let mut region_b = Region::init_container_region(3, 4000);
    region_b.set_priority(2);
    let region_d = Region::init_io_region(4, 1000);
    region_b.add_subregion(region_d, 0).unwrap();
    space.add_subregion(ROOT, region_c, 0).unwrap();
    space.add_subregion(ROOT, region_b, 2000).unwrap();

    let view: Vec<(u64, u64, u64)> = space
        .flat_view()
        .0
        .iter()
        .map(|fr| (fr.addr_range.base.0, fr.addr_range.size, fr.owner.id()))
        .collect();
    assert_eq!(view, vec![(0, 2000, 2), (2000, 1000, 4), (3000, 3000, 2)]);
    record.lock().unwrap().clear();

    // an event descriptor at the address 2000, on the region D
    let fds = vec![RegionIoEventFd {
        fd: 11,
        addr_range: AddressRange::from((0, 4)),
        data_match: false,
        data: 0,
    }];
    space.set_ioeventfds(4, &fds).unwrap();
    assert_eq!(record.lock().unwrap().len(), 0);
    space.update_topology().unwrap();
    assert_eq!(
        *record.lock().unwrap(),
        vec![(0, ListenerReqType::AddIoeventfd, 2000)]
    );
}

#[test]
fn test_changes_through_the_space() {
    let record = Arc::new(Mutex::new(Vec::new()));
    let root = Region::init_container_region(ROOT, 0x10000);
    let mut space = AddressSpace::new(root).unwrap();
    space.register_listener(Ranked::new(0, &record)).unwrap();
    let mapping = HostMemMapping::new(GuestAddress(0), HOST_1, 0x1000, None).unwrap();
    space
        .add_subregion(ROOT, Region::init_rom_device_region(2, mapping), 0x2000)
        .unwrap();
    assert_eq!(space.flat_view().0[0].rom_dev_romd, Some(true));
    record.lock().unwrap().clear();

    // the mode of the device changes: its range goes and comes anew
    space.set_rom_device_romd(2, false).unwrap();
    assert_eq!(
        *record.lock().unwrap(),
        vec![
            (0, ListenerReqType::DeleteRegion, 0x2000),
            (0, ListenerReqType::AddRegion, 0x2000)
        ]
    );
    assert_eq!(space.flat_view().0[0].rom_dev_romd, Some(false));
    record.lock().unwrap().clear();

    space.set_offset(2, GuestAddress(0x3000)).unwrap();
    assert_eq!(
        *record.lock().unwrap(),
        vec![
            (0, ListenerReqType::DeleteRegion, 0x2000),
            (0, ListenerReqType::AddRegion, 0x3000)
        ]
    );
    record.lock().unwrap().clear();

    space.set_priority(2, 4).unwrap();
    assert_eq!(space.root().subregions()[0].priority(), 4);
    assert_eq!(record.lock().unwrap().len(), 0);

    assert_eq!(space.set_priority(9, 4), Err(Error::NoSuchRegion(9)));
    assert_eq!(
        space.set_rom_device_romd(ROOT, true),
        Err(Error::RegionType(RegionType::Container))
    );
    assert_eq!(
        space.add_subregion(2, Region::init_io_region(3, 16), 0),
        Err(Error::RegionType(RegionType::RomDevice))
    );
}

#[test]
fn test_new_renders_the_tree() {
    let mut root = Region::init_container_region(ROOT, 8000);
    root.add_subregion(Region::init_io_region(2, 1000), 500).unwrap();
    let space: AddressSpace<TestListener> = AddressSpace::new(root).unwrap();
    assert_eq!(space.flat_view().0.len(), 1);
    assert_eq!(space.flat_view().0[0].addr_range, AddressRange::from((500, 1000)));

    // a tree that cannot be rendered gives no address space
    let mut empty_root = Region::init_container_region(ROOT, 0);
    empty_root.add_subregion(Region::init_io_region(2, 0), 0).unwrap();
    let failed: Result<AddressSpace<TestListener>, Error> = AddressSpace::new(empty_root);
    assert_eq!(failed.err(), Some(Error::RegionOutOfRange(0, 0, 0)));
}

#[test]
fn test_failure_names_the_range() {
    let record = Arc::new(Mutex::new(Vec::new()));
    let root = Region::init_container_region(ROOT, 8000);
    let mut space = AddressSpace::new(root).unwrap();
    let mut failing = Ranked::new(1, &record);
    failing.fail_on = Some(ListenerReqType::DeleteRegion);
    space.register_listener(failing).unwrap();
    let low = Region::init_io_region(2, 1000);
    space.add_subregion(ROOT, low.clone(), 0).unwrap();
    space
        .add_subregion(ROOT, Region::init_io_region(3, 500), 4000)
        .unwrap();
    record.lock().unwrap().clear();

    // an update that changes nothing asks nothing, and succeeds whatever
    // the listener would answer
    assert_eq!(space.update_topology(), Ok(()));
    assert_eq!(record.lock().unwrap().len(), 0);

    // the range at 0 goes while the range at 4000 stays: the failure is
    // at the range that the listener refused
    let mut low = low;
    low.set_offset(GuestAddress(0));
    assert_eq!(
        space.delete_subregion(ROOT, &low),
        Err(Error::UpdateTopology(0, 1000, RegionType::IO))
    );
    assert_eq!(
        *record.lock().unwrap(),
        vec![(1, ListenerReqType::DeleteRegion, 0)]
    );
    // the view in force is the old one
    assert_eq!(space.flat_view().0.len(), 2);

    // a descriptor that a listener refuses
    let record = Arc::new(Mutex::new(Vec::new()));
    let root = Region::init_container_region(ROOT, 8000);
    let mut space = AddressSpace::new(root).unwrap();
    let mut failing = Ranked::new(1, &record);
    failing.fail_on = Some(ListenerReqType::AddIoeventfd);
    space.register_listener(failing).unwrap();
    let mut device = Region::init_io_region(2, 1000);
    device.set_ioeventfds(&vec![RegionIoEventFd {
        fd: 9,
        addr_range: AddressRange::from((8, 2)),
        data_match: false,
        data: 0,
    }]);
    assert_eq!(
        space.add_subregion(ROOT, device, 4000),
        Err(Error::UpdateTopology(4008, 2, RegionType::IO))
    );
    // the new view is in force, the descriptor is not active
    assert_eq!(space.flat_view().0.len(), 1);
    assert_eq!(space.ioeventfds().len(), 0);
}

#[test]
fn test_view_queries() {
    let mut root = Region::init_container_region(ROOT, 0x10000);
    let mapping = HostMemMapping::new(GuestAddress(0x1000), HOST_1, 0x2000, None).unwrap();
    root.add_subregion(Region::init_ram_region(2, mapping), 0x1000).unwrap();
    root.add_subregion(Region::init_io_region(3, 0x100), 0x8000).unwrap();
    let view = root
        .generate_flatview(GuestAddress(0), AddressRange::from((0, 0x10000)))
        .unwrap();
    assert!(view.is_well_formed());
    assert!(view.0[0].is_well_formed());
    assert!(view.address_in_memory(GuestAddress(0x1000), 0x2000));
    assert!(!view.address_in_memory(GuestAddress(0x1001), 0x2000));
    assert!(!view.address_in_memory(GuestAddress(0x8000), 1));
    assert_eq!(view.memory_end_address(), GuestAddress(0x3000));
    assert_eq!(
        view.get_region_cache(GuestAddress(0x2fff)),
        Some(RegionCache { reg_type: RegionType::Ram, host_base: HOST_1, start: 0x1000, end: 0x3000 })
    );
    assert_eq!(view.get_region_cache(GuestAddress(0x3000)), None);

    // ranges out of order, a range of no length, a range outside its owner
    let mut swapped = view.clone();
    swapped.0.swap(0, 1);
    assert!(!swapped.is_well_formed());
    let mut overlapping = view.clone();
    overlapping.0[1].addr_range.base = GuestAddress(0x2fff);
    assert!(!overlapping.is_well_formed());
    let mut empty = view.0[1].clone();
    empty.addr_range.size = 0;
    assert!(!empty.is_well_formed());
    let mut outside = view.0[1].clone();
    outside.offset_in_region = 1;
    assert!(!outside.is_well_formed());
    let mut wrong_mode = view.0[1].clone();
    wrong_mode.rom_dev_romd = Some(true);
    assert!(!wrong_mode.is_well_formed());
    let mut high = view.0[1].clone();
    high.addr_range.base = GuestAddress(u64::MAX - 0x10);
    assert!(!high.is_well_formed());
    let container = address_space::FlatRange {
        owner: Region::init_container_region(9, 0x100),
        ..view.0[1].clone()
    };
    assert!(!container.is_well_formed());
}
