//! The guest physical address map of a virtual machine monitor.
//!
//! A tree of regions ([`region`]) describes what lies where in the guest's
//! address space; regions nest, overlap, and are ranked by priority.
//! Rendering ([`render`]) resolves the tree into a flat view
//! ([`flat_view`]): a sorted run of ranges that do not overlap, each with
//! the terminal region that owns it. An address space ([`address_space`])
//! holds the tree and the flat view in force, resolves every access by
//! the view, and tells its listeners ([`listener`]) of every range and
//! every event descriptor that comes or goes ([`topology`]), so that a
//! hypervisor's memory slots follow the view without two of them ever
//! sharing a guest address ([`slots`]).
//!
//! The library decides; it does not touch guest memory, call a device or
//! talk to a hypervisor. An access is resolved into a [`region::RegionAccess`]
//! that the caller carries out, and a request to a hypervisor listener
//! into a [`listener::KvmRequest`] that the caller issues.
//!
//! Beside the address map stand the power management registers of an ACPI
//! machine ([`acpi_device`]), a builder for ACPI machine language
//! ([`aml_compiler`]), the MSI-X table of a PCI device ([`msix`]) and the
//! feature bits of a virtio device ([`virtio`]).

pub mod acpi_device;
pub mod address;
pub mod address_space;
pub mod aml_compiler;
pub mod error;
pub mod flat_view;
pub mod host_mmap;
pub mod listener;
pub mod msix;
pub mod region;
pub mod render;
pub mod slots;
pub mod topology;
pub mod virtio;

pub use address::{AddressRange, GuestAddress};
pub use address_space::{AddressSpace, RegionCache};
pub use error::Error;
pub use flat_view::{FlatRange, FlatView};
pub use host_mmap::{FileBackend, HostMemMapping};
pub use listener::{KvmIoListener, KvmMemoryListener, Listener, ListenerReqType};
pub use region::{Region, RegionIoEventFd, RegionType};
