//! Building blocks for I/O memory management units: addresses, firmware tables,
//! page-table formats, controller descriptors and controller decisions.

pub mod addr;
pub mod arch;
pub mod bits;
pub mod bytes;
pub mod caps;
pub mod ctrl;
pub mod device;
pub mod error;
pub mod firm;
pub mod info;
pub mod mapping;
pub mod memory;
pub mod paging_laws;
pub mod poll;
pub mod queue;
pub mod queue_laws;
pub mod submit;
pub mod walk;

pub use addr::{
    IoPort, IoPortRange, Iovi32Addr, Iovi32AddrRange, IoviAddr, IoviAddrRange, Mmio32Addr,
    Mmio32AddrRange, MmioAddr, MmioAddrRange, MmioRange, PhysAddr, PhysAddrRange, Unsigned,
    VirtAddr, VirtAddrRange,
};
pub use caps::{
    Binding, BindingSelector, BindingTarget, CapabilityFlags, DmaAccess, DmaAttrs, TranslationStage,
};
pub use ctrl::{
    Controller, FaultEventConfig, InterruptMessage, InterruptRoute, Invalidate, InvalidateOutcome,
    InvalidateScope, IoTlbInvalidation, MsiMessage, NoClient, NoIoTlbFlush,
};
pub use error::Error;
pub use firm::pcie::{Bdf, BdfRange, BdfRangeSet, PciDevice};
pub use info::{ControllerKind, IoDomain, IommuInfo, ReservedRegion};
pub use queue::{CommandQueue, CommandQueueBacking};
