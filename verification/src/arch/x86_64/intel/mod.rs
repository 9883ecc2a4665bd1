pub mod caps;
pub mod ctrl;
pub mod dmar;
pub mod dmar_laws;
pub mod error;
pub mod info;
pub mod paging;

pub use caps::{VtdCapability, VtdExtendedCapability, VTD_MMIO_SIZE};
pub use ctrl::{
    VtdInterruptEntry, VtdQueuedInvalidationDescriptor, VtdQueuedInvalidationQueue,
    VtdRegisterWindow,
};
pub use error::VtdError;
pub use info::{
    vtd_default_domain, VtdDomain, VtdDomainActivation, VtdDomainControls, VtdDomainToken, VtdInfo,
    VtdIoDomain, VtdVersion, VTD_DOMAIN_MASK,
};
pub use paging::{
    VtdSecondLevelAddressWidth, VtdSecondLevelFlags, VtdSecondLevelMeta39, VtdSecondLevelMeta48,
    VtdSecondLevelMeta57, VtdSecondLevelPte,
};
