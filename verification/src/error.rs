//! The failures that the address space reports.

use vstd::prelude::*;

use crate::address::AddressRange;
use crate::listener::ListenerReqType;
use crate::region::RegionType;

verus! {

/// Why an operation on the address space failed.
#[derive(Clone, Copy, Debug, PartialEq, Eq, Structural)]
pub enum Error {
    /// A listener could not serve a request of this type.
    ListenerRequest(ListenerReqType),
    /// A listener refused a change of the flat range at `base` of `size`
    /// bytes, owned by a region of the given type.
    UpdateTopology(u64, u64, RegionType),
    /// An event descriptor could not be duplicated.
    IoEventFd,
    /// Aligning the address up to the alignment overflows.
    AddrAlignUp(u64, u64),
    /// No region covers the address.
    RegionNotFound(u64),
    /// An address or length computation overflows at this value.
    Overflow(u64),
    /// Host memory could not be mapped.
    Mmap,
    /// The device behind the region at `base` refused the access of
    /// `count` bytes at `offset`.
    IoAccess(u64, u64, u64),
    /// The operation does not apply to a region of this type.
    RegionType(RegionType),
    /// Every memory slot is in use; the payload is the number of slots.
    NoAvailKvmSlot(usize),
    /// No memory slot holds this guest address and size.
    NoMatchedKvmSlot(u64, u64),
    /// The range to add, given first, overlaps the range of a slot in use.
    KvmSlotOverlap(AddressRange, AddressRange),
    /// An access of `count` bytes at `offset` leaves a region of the given
    /// size.
    InvalidOffset(u64, u64, u64),
    /// No region of the tree has this identity.
    NoSuchRegion(u64),
    /// The region at this address shares no byte with the range
    /// `(base, size)` that its parent hands down.
    RegionOutOfRange(u64, u64, u64),
    /// Nothing is left of the range `(address, size)` once it is aligned to
    /// the alignment.
    MemSlotEmpty(u64, u64, u64),
    /// An event descriptor with data match has a width other than 2, 4 or
    /// 8 bytes.
    IoEventFdLength(u64),
}

} // verus!
