//! Fault status and fault records.

use vstd::prelude::*;

use super::super::info::VtdInfo;
use super::registers::{RegisterStep, REG_FSTS};
use crate::addr::IoviAddr;
use crate::bits;
use crate::caps::DmaAccess;
use crate::error::Error;
use crate::firm::pcie::{Bdf, PciDevice};

verus! {

/// The fault status bits that are cleared by writing them back.
pub const FSTS_CLEARABLE: u32 = 0xfd;

/// The distance between two fault records.
pub const FRCD_ENTRY_STRIDE: usize = 16;

/// The offset of a record's high word.
pub const FRCD_HIGH_OFFSET: usize = 8;

const FRCDL_FAULT_INFO_MASK: u64 = 0xffff_ffff_ffff_f000;

/// VT-d fault source decoded from FSTS/FRCD state.
#[derive(Clone, Copy, Debug, PartialEq, Eq, Hash, Structural)]
pub enum VtdFaultReason {
    Primary { raw: u8 },
    PrimaryFaultOverflow,
    AdvancedFaultOverflow,
    AdvancedPendingFault,
    InvalidationQueueError,
    InvalidationCompletionError,
    InvalidationTimeout,
    PageRequestOverflow,
}

/// One decoded VT-d fault observation.
#[derive(Clone, Copy, Debug, PartialEq, Eq)]
pub struct VtdFault {
    pub reason: VtdFaultReason,
    pub source_id: Option<u16>,
    pub client: Option<PciDevice>,
    pub iova: Option<IoviAddr<u64>>,
    pub access: DmaAccess,
    pub record_index: Option<u16>,
    pub overflow: bool,
    pub pending: bool,
}

impl VtdFault {
    pub fn new(
        reason: VtdFaultReason,
        source_id: Option<u16>,
        client: Option<PciDevice>,
        iova: Option<IoviAddr<u64>>,
        access: DmaAccess,
        record_index: Option<u16>,
        overflow: bool,
        pending: bool,
    ) -> (r: Self)
        ensures
            r == (VtdFault {
                reason,
                source_id,
                client,
                iova,
                access,
                record_index,
                overflow,
                pending,
            }),
    {
        VtdFault { reason, source_id, client, iova, access, record_index, overflow, pending }
    }

    pub fn reason(self) -> (r: VtdFaultReason)
        ensures
            r == self.reason,
    {
        self.reason
    }

    pub fn source_id(self) -> (r: Option<u16>)
        ensures
            r == self.source_id,
    {
        self.source_id
    }

    pub fn client(self) -> (r: Option<PciDevice>)
        ensures
            r == self.client,
    {
        self.client
    }

    pub fn iova(self) -> (r: Option<IoviAddr<u64>>)
        ensures
            r == self.iova,
    {
        self.iova
    }

    pub fn access(self) -> (r: DmaAccess)
        ensures
            r == self.access,
    {
        self.access
    }

    pub fn record_index(self) -> (r: Option<u16>)
        ensures
            r == self.record_index,
    {
        self.record_index
    }

    pub fn overflow(self) -> (r: bool)
        ensures
            r == self.overflow,
    {
        self.overflow
    }

    pub fn pending(self) -> (r: bool)
        ensures
            r == self.pending,
    {
        self.pending
    }
}

/// The most important condition that a fault status reports, if any.
pub open spec fn status_reason(status: u32) -> Option<VtdFaultReason> {
    let word = status as u64;
    if bits::bit_set(word, 0) {
        Some(VtdFaultReason::PrimaryFaultOverflow)
    } else if bits::bit_set(word, 2) {
        Some(VtdFaultReason::AdvancedFaultOverflow)
    } else if bits::bit_set(word, 3) {
        Some(VtdFaultReason::AdvancedPendingFault)
    } else if bits::bit_set(word, 4) {
        Some(VtdFaultReason::InvalidationQueueError)
    } else if bits::bit_set(word, 5) {
        Some(VtdFaultReason::InvalidationCompletionError)
    } else if bits::bit_set(word, 6) {
        Some(VtdFaultReason::InvalidationTimeout)
    } else if bits::bit_set(word, 7) {
        Some(VtdFaultReason::PageRequestOverflow)
    } else {
        None
    }
}

/// The fault that a fault status reports without a record.
pub open spec fn status_fault(status: u32) -> Option<VtdFault> {
    match status_reason(status) {
        Some(reason) => Some(
            VtdFault {
                reason,
                source_id: None,
                client: None,
                iova: None,
                access: DmaAccess::none(),
                record_index: None,
                overflow: reason is PrimaryFaultOverflow || reason is AdvancedFaultOverflow,
                pending: bits::bit_set(status as u64, 1),
            },
        ),
        None => None,
    }
}

pub fn decode_fault_status(status: u32) -> (r: Option<VtdFault>)
    ensures
        r == status_fault(status),
{
    let word: u64 = status as u64;
    let reason = if bits::bit(word, 0) {
        VtdFaultReason::PrimaryFaultOverflow
    } else if bits::bit(word, 2) {
        VtdFaultReason::AdvancedFaultOverflow
    } else if bits::bit(word, 3) {
        VtdFaultReason::AdvancedPendingFault
    } else if bits::bit(word, 4) {
        VtdFaultReason::InvalidationQueueError
    } else if bits::bit(word, 5) {
        VtdFaultReason::InvalidationCompletionError
    } else if bits::bit(word, 6) {
        VtdFaultReason::InvalidationTimeout
    } else if bits::bit(word, 7) {
        VtdFaultReason::PageRequestOverflow
    } else {
        return None;
    };
    let overflow = reason == VtdFaultReason::PrimaryFaultOverflow || reason
        == VtdFaultReason::AdvancedFaultOverflow;
    Some(
        VtdFault::new(
            reason,
            None,
            None,
            None,
            DmaAccess::empty(),
            None,
            overflow,
            bits::bit(word, 1),
        ),
    )
}

/// The access that a record reports. Bits 62 and 28 mark reads and bit 30
/// marks execution, which reads; what is none of these is a write. Bit 31 marks
/// a privileged access.
pub open spec fn record_access(high: u64) -> DmaAccess {
    let reads = bits::bit_set(high, 62) || bits::bit_set(high, 28) || bits::bit_set(high, 30);
    DmaAccess {
        readable: reads,
        writable: !reads,
        executable: bits::bit_set(high, 30),
        user_visible: !bits::bit_set(high, 31),
    }
}

/// Whether a fault is the one of the record with the given words: the reason in
/// bits `[39:32]` and the requester in bits `[15:0]` of the high word, and the
/// page address in the low one.
pub open spec fn is_record(
    fault: VtdFault,
    segment: u16,
    index: u16,
    low: u64,
    high: u64,
) -> bool {
    let source = bits::bit_field(high, 15, 0) as u16;
    &&& fault.reason == (VtdFaultReason::Primary { raw: bits::bit_field(high, 39, 32) as u8 })
    &&& fault.source_id == Some(source)
    &&& fault.client == Some(PciDevice::spec_from_segment_bdf(segment, Bdf(source)))
    &&& fault.iova matches Some(iova) && iova@ == (low & 0xffff_ffff_ffff_f000) as usize
    &&& fault.access == record_access(high)
    &&& fault.record_index == Some(index)
    &&& !fault.overflow
    &&& fault.pending
}

pub fn decode_primary_fault(segment: u16, index: u16, low: u64, high: u64) -> (r: VtdFault)
    ensures
        is_record(r, segment, index, low, high),
{
    let raw: u8 = bits::field(high, 39, 32) as u8;
    let source_id: u16 = bits::field(high, 15, 0) as u16;
    let client = PciDevice::from_segment_bdf(segment, Bdf::from_u16(source_id));
    let iova = IoviAddr::<u64>::from_usize((low & FRCDL_FAULT_INFO_MASK) as usize);
    let executes = bits::bit(high, 30);
    let reads = bits::bit(high, 62) || bits::bit(high, 28) || executes;
    let access = DmaAccess {
        readable: reads,
        writable: !reads,
        executable: executes,
        user_visible: !bits::bit(high, 31),
    };
    VtdFault::new(
        VtdFaultReason::Primary { raw },
        Some(source_id),
        Some(client),
        Some(iova),
        access,
        Some(index),
        false,
        true,
    )
}

/// A fault record reports a read or a write, never both and never neither.
pub proof fn law_record_reads_or_writes(high: u64)
    ensures
        record_access(high).readable != record_access(high).writable,
        record_access(high).executable ==> record_access(high).readable,
{
}

/// What a fault status asks for next.
#[derive(Clone, Copy, Debug, PartialEq, Eq)]
pub enum VtdFaultPoll {
    /// Nothing is reported.
    Quiet,
    /// A fault without a record; the status bits `clear` are to be written
    /// back.
    Report { fault: VtdFault, clear: u32 },
    /// A fault whose record lies at the register offset `record`.
    ReadRecord { index: u16, record: usize },
}

/// A pending record comes first: its index is in bits `[15:8]` and has to be
/// one of the unit's records. Else the status itself is reported.
pub open spec fn fault_poll(info: VtdInfo, status: u32) -> Result<VtdFaultPoll, Error> {
    let index = bits::bit_field(status as u64, 15, 8);
    if bits::bit_set(status as u64, 1) {
        if index >= info.cap.spec_fault_record_count() {
            Err(Error::ControllerUnavailable)
        } else {
            Ok(
                VtdFaultPoll::ReadRecord {
                    index: index as u16,
                    record: (info.cap.spec_fault_record_offset() + index * 16) as usize,
                },
            )
        }
    } else {
        match status_fault(status) {
            Some(fault) => Ok(VtdFaultPoll::Report { fault, clear: status & 0xfd }),
            None => Ok(VtdFaultPoll::Quiet),
        }
    }
}

pub fn poll_fault(info: VtdInfo, status: u32) -> (r: Result<VtdFaultPoll, Error>)
    ensures
        r == fault_poll(info, status),
{
    if bits::bit(status as u64, 1) {
        let index: u16 = bits::field(status as u64, 15, 8) as u16;
        if index >= info.cap().fault_record_count() {
            return Err(Error::ControllerUnavailable);
        }
        let record: usize = info.cap().fault_record_register_offset() as usize + index as usize
            * FRCD_ENTRY_STRIDE;
        return Ok(VtdFaultPoll::ReadRecord { index, record });
    }
    match decode_fault_status(status) {
        Some(fault) => Ok(VtdFaultPoll::Report { fault, clear: status & FSTS_CLEARABLE }),
        None => Ok(VtdFaultPoll::Quiet),
    }
}

/// The fault of a record that was read, which has to be marked as one by bit 63
/// of its high word. A unit without a segment counts as segment zero.
pub fn poll_primary_fault(info: VtdInfo, index: u16, low: u64, high: u64) -> (r: Result<
    VtdFault,
    Error,
>)
    ensures
        match r {
            Ok(fault) => bits::bit_set(high, 63) && is_record(
                fault,
                match info.base.segment {
                    Some(segment) => segment,
                    None => 0,
                },
                index,
                low,
                high,
            ),
            Err(error) => !bits::bit_set(high, 63) && error == Error::ControllerUnavailable,
        },
{
    if !bits::bit(high, 63) {
        return Err(Error::ControllerUnavailable);
    }
    let segment: u16 = match info.base().segment() {
        Some(segment) => segment,
        None => 0,
    };
    Ok(decode_primary_fault(segment, index, low, high))
}

/// Where the two words of a record lie.
pub fn primary_fault_offsets(record: usize) -> (r: Result<(usize, usize), Error>)
    ensures
        r == (if record + 8 <= usize::MAX {
            Ok::<(usize, usize), Error>((record, (record + 8) as usize))
        } else {
            Err(Error::AddressOverflow)
        }),
{
    match record.checked_add(FRCD_HIGH_OFFSET) {
        Some(high) => Ok((record, high)),
        None => Err(Error::AddressOverflow),
    }
}

/// The access that clears a record once its fault was taken: its high word is
/// written back as it was read.
pub fn clear_primary_fault(record: usize, high: u64) -> (r: Result<RegisterStep, Error>)
    ensures
        r == (if record + 8 <= usize::MAX {
            Ok::<RegisterStep, Error>(
                RegisterStep::Write64 { offset: (record + 8) as usize, value: high },
            )
        } else {
            Err(Error::AddressOverflow)
        }),
{
    match primary_fault_offsets(record) {
        Ok((_, offset)) => Ok(RegisterStep::Write64 { offset, value: high }),
        Err(error) => Err(error),
    }
}

/// The access that clears a fault status, where any of its bits is cleared by
/// writing it back.
pub fn clear_fault_status(status: u32) -> (r: Option<RegisterStep>)
    ensures
        r == (if status & 0xfd == 0 {
            None
        } else {
            Some(RegisterStep::Write32 { offset: REG_FSTS, value: status & 0xfd })
        }),
{
    let bits: u32 = status & FSTS_CLEARABLE;
    if bits == 0 {
        None
    } else {
        Some(RegisterStep::Write32 { offset: REG_FSTS, value: bits })
    }
}

/// The record that a fault status points to lies so that its words can be read
/// and cleared.
pub proof fn law_pending_record_can_be_cleared(info: VtdInfo, status: u32)
    requires
        fault_poll(info, status) is Ok,
        fault_poll(info, status)->Ok_0 is ReadRecord,
    ensures
        ({
            let record = fault_poll(info, status)->Ok_0->record;
            &&& record == info.cap.spec_fault_record_offset()
                + fault_poll(info, status)->Ok_0->index * 16
            &&& record + 8 <= usize::MAX
        }),
{
    bits::lemma_field_bound(info.cap.0, 10, 24);
    bits::lemma_field_bound(status as u64, 8, 8);
}

} // verus!
