//! ARM SMMUv2 VMSA page-table geometry.
//!
//! SMMUv2 and SMMUv3 both consume the ARM VMSA long-descriptor table shape for
//! translated IOVA spaces. The generation-specific modules stay separate for
//! context-bank/stream-table work, but the page-table geometry is intentionally
//! shared.

pub use super::smmu3::{
    SmmuVmsaMeta16K48, SmmuVmsaMeta16K52, SmmuVmsaMeta4K48, SmmuVmsaMeta4K52, SmmuVmsaMeta64K48,
    SmmuVmsaMeta64K52,
};
