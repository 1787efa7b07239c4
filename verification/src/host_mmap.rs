//! The record of a piece of host memory that backs guest memory.

use vstd::prelude::*;

use crate::address::GuestAddress;
use crate::error::Error;

verus! {

/// The file that backs a mapping.
#[derive(Clone, Copy, Debug, PartialEq, Eq, Structural)]
pub struct FileBackend {
    /// Descriptor of the open file.
    pub fd: i32,
    /// Where in the file the mapping starts.
    pub offset: u64,
    /// Page size of the file system that holds the file.
    pub page_size: u64,
}

/// An established mapping of host memory: where the guest sees it, where
/// the host holds it, and how long it is. Both ends of a mapping lie
/// within the 64-bit space.
#[derive(Clone, Copy, Debug, PartialEq, Eq, Structural)]
pub struct HostMemMapping {
    guest_address: GuestAddress,
    host_address: u64,
    length: u64,
    file_backend: Option<FileBackend>,
}

impl HostMemMapping {
    #[verifier::type_invariant]
    closed spec fn inv(self) -> bool {
        &&& self.guest_address.0 + self.length <= u64::MAX
        &&& self.host_address + self.length <= u64::MAX
    }

    /// Guest address of the first byte.
    pub closed spec fn guest_base(self) -> GuestAddress {
        self.guest_address
    }

    /// Host virtual address of the first byte.
    pub closed spec fn host_base(self) -> u64 {
        self.host_address
    }

    /// Length in bytes.
    pub closed spec fn len(self) -> u64 {
        self.length
    }

    /// The backing file, if the memory is not anonymous.
    pub closed spec fn backend(self) -> Option<FileBackend> {
        self.file_backend
    }

    /// Whether both ends of the mapping lie within the 64-bit space.
    pub open spec fn wf(self) -> bool {
        &&& self.guest_base().0 + self.len() <= u64::MAX
        &&& self.host_base() + self.len() <= u64::MAX
    }

    /// Records a mapping of `size` bytes of host memory at `host_addr`,
    /// seen by the guest at `guest_addr`.
    ///
    /// Fails with `Overflow` when either end lies beyond the 64-bit space.
    pub fn new(
        guest_addr: GuestAddress,
        host_addr: u64,
        size: u64,
        file_backend: Option<FileBackend>,
    ) -> (r: Result<HostMemMapping, Error>)
        ensures
            guest_addr.0 + size > u64::MAX ==> r == Err::<HostMemMapping, Error>(
                Error::Overflow(guest_addr.0),
            ),
            guest_addr.0 + size <= u64::MAX && host_addr + size > u64::MAX ==> r == Err::<
                HostMemMapping,
                Error,
            >(Error::Overflow(host_addr)),
            guest_addr.0 + size <= u64::MAX && host_addr + size <= u64::MAX ==> r is Ok,
            r matches Ok(m) ==> m.guest_base() == guest_addr && m.host_base() == host_addr
                && m.len() == size && m.backend() == file_backend && m.wf(),
    {
        if guest_addr.0.checked_add(size).is_none() {
            return Err(Error::Overflow(guest_addr.0));
        }
        if host_addr.checked_add(size).is_none() {
            return Err(Error::Overflow(host_addr));
        }
        Ok(
            HostMemMapping {
                guest_address: guest_addr,
                host_address: host_addr,
                length: size,
                file_backend,
            },
        )
    }

    /// Guest address of the first byte.
    pub fn start_address(&self) -> (r: GuestAddress)
        ensures
            r == self.guest_base(),
    {
        self.guest_address
    }

    /// Length in bytes.
    pub fn size(&self) -> (r: u64)
        ensures
            r == self.len(),
            self.wf(),
    {
        proof {
            use_type_invariant(self);
        }
        self.length
    }

    /// Host virtual address of the first byte.
    pub fn host_address(&self) -> (r: u64)
        ensures
            r == self.host_base(),
            self.wf(),
    {
        proof {
            use_type_invariant(self);
        }
        self.host_address
    }

    /// The backing file, if the memory is not anonymous.
    pub fn file_backend(&self) -> (r: Option<FileBackend>)
        ensures
            r == self.backend(),
    {
        self.file_backend
    }
}

} // verus!
