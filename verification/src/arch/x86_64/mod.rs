pub mod activation;
pub mod amd;
pub mod intel;
pub mod interrupt;

pub use activation::{
    X86Cr3Mode, X86PagingActivation, X86PagingControls, X86PagingToken,
};
pub use interrupt::{
    X86InterruptVector, X86MsiDelivery, X86MsiDeliveryMode, X86MsiDestination, X86MsiLevel,
    X86MsiTriggerMode,
};
