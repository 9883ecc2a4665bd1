//! Intel VT-d controller-side descriptors and decisions.
//!
//! VT-d has two related but distinct table families: second-level DMA
//! translation tables, whose entries are page-table entries, and
//! requester-routing and controller tables, which are fixed-width hardware
//! descriptors. Root entries, context entries, queued-invalidation descriptors,
//! and interrupt-remapping entries publish or synchronize translation domains,
//! but they do not describe IOVA leaves.

pub mod fault;
pub mod invalidation;
pub mod laws;
pub mod plan;
pub mod register_laws;
pub mod registers;
pub mod remap;
pub mod tables;
pub mod unit;
pub mod window;

pub use fault::{
    clear_fault_status, clear_primary_fault, decode_fault_status, decode_primary_fault, poll_fault,
    poll_primary_fault, primary_fault_offsets, VtdFault, VtdFaultPoll, VtdFaultReason,
    FRCD_ENTRY_STRIDE, FRCD_HIGH_OFFSET, FSTS_CLEARABLE,
};
pub use invalidation::{
    prefer_full_flush, queued_invalidation_table_address, VtdInvalidationPlan,
    VtdQueuedInvalidationDescriptor, VtdQueuedInvalidationQueue, IOTLB_RANGE_DOMAIN_INVALIDATION_THRESHOLD, QI_ENTRY_BYTES,
    QI_MIN_ENTRIES,
};
pub use plan::{VtdIotlbRangeBlock, VtdIotlbRangePlan};
pub use registers::{
    global_command, poll_outcome, RegisterStep, VtdRegisterWindow, FECTL_INTERRUPT_MASK, GCMD_IRE, GCMD_QIE,
    GCMD_SIRTP, GCMD_SRTP, GCMD_TE, GSTS_IRES, GSTS_IRTPS, GSTS_QIES, GSTS_RTPS, GSTS_TES, REG_CAP,
    REG_CCMD, REG_ECAP, REG_FEADDR, REG_FECTL, REG_FEDATA, REG_FEUADDR, REG_FSTS, REG_GCMD,
    REG_GSTS, REG_IQA, REG_IQH, REG_IQT, REG_IRTA, REG_RTADDR, REG_VERSION,
};
pub use remap::{
    write_interrupt_remap_entry, VtdInterruptEntry, VtdInterruptRemapEntry,
    VtdInterruptRemapTableBacking, VtdInterruptRemapTarget, VtdRemappedMsi,
    INTERRUPT_REMAP_ENTRY_BYTES, INTERRUPT_REMAP_MAX_ENTRIES, INTERRUPT_REMAP_MIN_ENTRIES,
};
pub use tables::{
    write_context_entry, write_root_entry, VtdContextEntry, VtdContextTableBacking, VtdRootEntry,
    VtdRootTableBacking, CONTEXT_ENTRY_BYTES, CONTEXT_ENTRY_COUNT,
    CONTEXT_TRANSLATION_TYPE_MULTI_LEVEL, CONTEXT_TRANSLATION_TYPE_PASS_THROUGH, ROOT_ENTRY_BYTES,
    ROOT_ENTRY_COUNT,
};
pub use unit::{VtdContextUpdate, VtdTranslationStart, VtdUnit};
pub use window::VtdRemapUpdate;
