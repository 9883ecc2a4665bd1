//! What the registers of a unit are told and what their contents mean, stated
//! over the bits of the words.

use vstd::prelude::*;

use super::fault::{VtdFault, VtdFaultPoll, VtdFaultReason};
use super::invalidation::VtdQueuedInvalidationDescriptor;
use super::registers::{RegisterStep, VtdRegisterWindow};
use super::remap::{VtdInterruptRemapTableBacking, VtdInterruptRemapTarget};
use super::tables::{VtdContextEntry, VtdRootEntry};
use super::unit::{UnitView, VtdContextUpdate};
use crate::addr::{PhysAddr, PhysAddrRange, VirtAddrRange};
use crate::arch::x86_64::intel::caps::VtdCapability;
use crate::arch::x86_64::intel::info::{VtdDomain, VtdInfo};
use crate::arch::x86_64::intel::paging::VtdSecondLevelAddressWidth;
use crate::arch::x86_64::interrupt::X86MsiDelivery;
use crate::caps::{Binding, BindingSelector, BindingTarget};
use crate::ctrl::InterruptRoute;
use crate::device::{QueueEvent, QueueReport};
use crate::error::Error;
use crate::firm::pcie::PciDevice;
use crate::memory::{PageSize, PageTableEntry};
use crate::queue::{CommandQueueBacking, QueueView};

verus! {

/// Bit `index` of a word is one.
pub open spec fn bit_on(word: u64, index: u64) -> bool {
    (word >> index) & 1 == 1
}

/// The bit of the fault status that reports a fault without a record.
pub open spec fn reporting_bit(reason: VtdFaultReason) -> Option<u64> {
    match reason {
        VtdFaultReason::PrimaryFaultOverflow => Some(0),
        VtdFaultReason::AdvancedFaultOverflow => Some(2),
        VtdFaultReason::AdvancedPendingFault => Some(3),
        VtdFaultReason::InvalidationQueueError => Some(4),
        VtdFaultReason::InvalidationCompletionError => Some(5),
        VtdFaultReason::InvalidationTimeout => Some(6),
        VtdFaultReason::PageRequestOverflow => Some(7),
        _ => None,
    }
}

/// A fault status reports a fault whose bit is set, and none of a lower bit;
/// where none of its bits 0 and 2 to 7 is set it reports nothing. The fault has
/// no requester and no record, and counts as an overflow for bits 0 and 2.
pub proof fn law_status_reports_its_lowest_fault(status: u32, index: u64)
    requires
        index <= 7,
        index != 1,
    ensures
        match super::fault::status_fault(status) {
            Some(fault) => {
                &&& reporting_bit(fault.reason) matches Some(bit) && bit_on(status as u64, bit) && (
                index < bit ==> !bit_on(status as u64, index)) && fault.overflow == (bit == 0 || bit
                    == 2)
                &&& fault.source_id is None
                &&& fault.client is None
                &&& fault.iova is None
                &&& fault.record_index is None
                &&& !fault.access.readable && !fault.access.writable && !fault.access.executable
                &&& fault.pending == bit_on(status as u64, 1)
            },
            None => !bit_on(status as u64, index),
        },
{
}

/// Where bit 1 of a fault status is set, the record to read is the one in bits
/// `[15:8]`, 16 bytes behind the one before it, the first one at 16 times the
/// number in bits `[33:24]` of the capabilities; it is refused exactly where the
/// unit has no such record, of which it has one more than bits `[47:40]` say.
/// Otherwise the status itself is reported, and bits 0 and 2 to 7 that are set
/// are cleared; where there are none the unit is quiet.
pub proof fn law_fault_poll_follows_the_status(info: VtdInfo, status: u32, index: u64)
    requires
        index < 32,
    ensures
        ({
            let word = status as u64;
            let cap = info.cap.0;
            let record = (word >> 8) & 0xff;
            match super::fault::fault_poll(info, status) {
                Err(error) => {
                    &&& bit_on(word, 1)
                    &&& record > (cap >> 40) & 0xff
                    &&& error == Error::ControllerUnavailable
                },
                Ok(VtdFaultPoll::ReadRecord { index: at, record: offset }) => {
                    &&& bit_on(word, 1)
                    &&& record <= (cap >> 40) & 0xff
                    &&& at == record
                    &&& offset == ((cap >> 24) & 0x3ff) * 16 + record * 16
                },
                Ok(VtdFaultPoll::Report { fault, clear }) => {
                    &&& !bit_on(word, 1)
                    &&& super::fault::status_fault(status) == Some(fault)
                    &&& bit_on(clear as u64, index) == (bit_on(word, index) && index < 8 && index != 1)
                },
                Ok(VtdFaultPoll::Quiet) => {
                    &&& !bit_on(word, 1)
                    &&& super::fault::status_fault(status) is None
                },
            }
        }),
{
    let cap = info.cap.0;
    assert(((1u64 << 8) - 1) as u64 == 0xff && ((1u64 << 10) - 1) as u64 == 0x3ff && (cap >> 24)
        & 0x3ff <= 0x3ff && ((status as u64) >> 8) & 0xff <= 0xff && (((((status & 0xfd) as u64)
        >> index) & 1 == 1) == ((((status as u64) >> index) & 1 == 1) && index < 8 && index != 1)))
        by (bit_vector)
        requires
            index < 32,
    ;
}

/// A fault record gives the reason in bits `[39:32]` of its high word, the
/// requester in bits `[15:0]`, which with the segment of the unit is the client,
/// and the page in the low word without its twelve low bits. The access was a
/// read where bit 62, 28 or 30 of the high word is set and else a write, an
/// execution where bit 30 is, and not privileged where bit 31 is not.
pub proof fn law_fault_record_is_read_from_its_words(
    fault: VtdFault,
    segment: u16,
    index: u16,
    low: u64,
    high: u64,
)
    requires
        super::fault::is_record(fault, segment, index, low, high),
    ensures
        fault.reason matches VtdFaultReason::Primary { raw } && raw == (high >> 32) & 0xff,
        fault.source_id matches Some(source) && source == high & 0xffff,
        fault.client matches Some(client) && client.0 == segment * 0x1_0000 + (high & 0xffff),
        usize::BITS == 64 ==> (fault.iova matches Some(iova) && iova@ <= low < iova@ + 0x1000
            && iova@ % 0x1000 == 0),
        fault.access.readable == (bit_on(high, 62) || bit_on(high, 28) || bit_on(high, 30)),
        fault.access.writable == !fault.access.readable,
        fault.access.executable == bit_on(high, 30),
        fault.access.user_visible == !bit_on(high, 31),
        fault.record_index == Some(index),
        !fault.overflow,
        fault.pending,
{
    assert(((1u64 << 8) - 1) as u64 == 0xff && ((1u64 << 16) - 1) as u64 == 0xffff && (high >> 0)
        == high && (high >> 32) & 0xff <= 0xff && high & 0xffff <= 0xffff && (low
        & 0xffff_ffff_ffff_f000) <= low && low - (low & 0xffff_ffff_ffff_f000) < 0x1000 && (low
        & 0xffff_ffff_ffff_f000) % 0x1000 == 0) by (bit_vector);
}

/// A program that turns something on or off gives one command and then waits.
/// The command has the bit as asked and every other bit as the status, and the
/// wait ends exactly with a status that has the bit as asked.
pub open spec fn switches(steps: Seq<RegisterStep>, index: u64, enabled: bool) -> bool {
    &&& steps.len() == 2
    &&& steps[0] matches RegisterStep::Command { set, clear } && forall|status: u32, other: u64|
        other < 32 ==> #[trigger] bit_on(
            super::registers::command_value(status, set, clear) as u64,
            other,
        ) == (if other == index {
            enabled
        } else {
            bit_on(status as u64, other)
        })
    &&& steps[1] matches RegisterStep::Await { mask, expected } && forall|status: u32|
        #[trigger] super::registers::reached(status, mask, expected) == (bit_on(status as u64, index)
            == enabled)
}

/// Translation is switched by bit 31 of the command, queued invalidation by bit
/// 26 and interrupt remapping by bit 25, and each shows in the same bit of the
/// status.
pub proof fn law_switches_change_their_own_bit(enabled: bool)
    ensures
        switches(
            super::registers::switch_steps(
                super::registers::GCMD_TE,
                super::registers::GSTS_TES,
                enabled,
            ),
            31,
            enabled,
        ),
        switches(
            super::registers::switch_steps(
                super::registers::GCMD_QIE,
                super::registers::GSTS_QIES,
                enabled,
            ),
            26,
            enabled,
        ),
        switches(
            super::registers::switch_steps(
                super::registers::GCMD_IRE,
                super::registers::GSTS_IRES,
                enabled,
            ),
            25,
            enabled,
        ),
{
    assert(forall|status: u32, other: u64|
        #![trigger (((status | 0x8000_0000u32) & !0u32) as u64) >> other]
        #![trigger (((status | 0x0400_0000u32) & !0u32) as u64) >> other]
        #![trigger (((status | 0x0200_0000u32) & !0u32) as u64) >> other]
        other < 32 ==> (((((status | 0x8000_0000u32) & !0u32) as u64) >> other) & 1 == 1) == (other
            == 31 || ((status as u64) >> other) & 1 == 1) && (((((status | 0x0400_0000u32) & !0u32)
            as u64) >> other) & 1 == 1) == (other == 26 || ((status as u64) >> other) & 1 == 1)
            && (((((status | 0x0200_0000u32) & !0u32) as u64) >> other) & 1 == 1) == (other == 25
            || ((status as u64) >> other) & 1 == 1)) by (bit_vector);
    assert(forall|status: u32, other: u64|
        #![trigger (((status | 0u32) & !0x8000_0000u32) as u64) >> other]
        #![trigger (((status | 0u32) & !0x0400_0000u32) as u64) >> other]
        #![trigger (((status | 0u32) & !0x0200_0000u32) as u64) >> other]
        other < 32 ==> (((((status | 0u32) & !0x8000_0000u32) as u64) >> other) & 1 == 1) == (other
            != 31 && ((status as u64) >> other) & 1 == 1) && (((((status | 0u32) & !0x0400_0000u32)
            as u64) >> other) & 1 == 1) == (other != 26 && ((status as u64) >> other) & 1 == 1)
            && (((((status | 0u32) & !0x0200_0000u32) as u64) >> other) & 1 == 1) == (other != 25
            && ((status as u64) >> other) & 1 == 1)) by (bit_vector);
    assert(forall|status: u32|
        #![trigger status & 0x8000_0000u32]
        #![trigger status & 0x0400_0000u32]
        #![trigger status & 0x0200_0000u32]
        (status & 0x8000_0000u32 == 0x8000_0000u32 & 0x8000_0000u32) == (((status as u64) >> 31) & 1
            == 1) && (status & 0x8000_0000u32 == 0u32 & 0x8000_0000u32) == (((status as u64) >> 31)
            & 1 != 1) && (status & 0x0400_0000u32 == 0x0400_0000u32 & 0x0400_0000u32) == (((
        status as u64) >> 26) & 1 == 1) && (status & 0x0400_0000u32 == 0u32 & 0x0400_0000u32) == (((
        status as u64) >> 26) & 1 != 1) && (status & 0x0200_0000u32 == 0x0200_0000u32
            & 0x0200_0000u32) == (((status as u64) >> 25) & 1 == 1) && (status & 0x0200_0000u32
            == 0u32 & 0x0200_0000u32) == (((status as u64) >> 25) & 1 != 1)) by (bit_vector);
}

/// The root table is made known by writing its address to the register at 0x20
/// and then giving the command with bit 30, until bit 30 of the status is set;
/// the remapping table by writing the register at 0xb8 and bit 24. A queue is
/// made known by writing the register at 0x90 and then its tail at 0x88, to
/// zero.
pub proof fn law_tables_are_written_before_they_are_installed(
    root: PhysAddr,
    backing: CommandQueueBacking,
)
    ensures
        ({
            let steps = super::registers::root_table_steps(root);
            &&& steps.len() == 3
            &&& steps[0] == (RegisterStep::Write64 { offset: 0x20, value: root.0 as u64 })
            &&& steps[1] == (RegisterStep::Command { set: 0x4000_0000, clear: 0 })
            &&& steps[2] == (RegisterStep::Await { mask: 0x4000_0000, expected: 0x4000_0000 })
        }),
        ({
            let steps = super::registers::queue_steps(backing);
            &&& steps.len() == 2
            &&& steps[0] == (RegisterStep::Write64 {
                offset: 0x90,
                value: super::invalidation::queue_address(backing),
            })
            &&& steps[1] == (RegisterStep::Write64 { offset: 0x88, value: 0 })
        }),
        super::registers::REG_IRTA == 0xb8,
        super::registers::GCMD_SIRTP == 0x0100_0000,
        super::registers::GSTS_IRTPS == 0x0100_0000,
{
}

/// The register of the remapping table holds the address of the table, which
/// starts at a page, the number of its entries as a power of two less one in
/// its four low bits, and whether the extended mode is on in bit 11.
pub proof fn law_remap_table_register_holds_address_and_size(
    table: VtdInterruptRemapTableBacking,
    extended: bool,
)
    requires
        table.wf(),
    ensures
        ({
            let value = super::registers::remap_table_value(table, extended);
            &&& value & 0xffff_ffff_ffff_f000 == table.spec_backing().spec_phys().start.0
            &&& vstd::arithmetic::power2::pow2(((value & 0xf) + 1) as nat)
                == table.spec_backing().spec_entry_count()
            &&& bit_on(value, 11) == extended
            &&& value & 0x7f0 == 0
        }),
{
    let count = table.spec_backing().spec_entry_count() as int;
    crate::bits::lemma_log2_of_pow2(count);
    crate::bits::lemma_log2_bounds(count);
    vstd::arithmetic::power2::lemma2_to64();
    if table.spec_irta_size() >= 16 {
        vstd::arithmetic::power2::lemma_pow2_strictly_increases(
            16,
            crate::bits::spec_log2(count) as nat,
        );
    }
    let start = table.spec_backing().spec_phys().start.0 as u64;
    let size = table.spec_irta_size() as u64;
    let mode = if extended {
        0x800u64
    } else {
        0
    };
    assert({
        let value = (start & 0xffff_ffff_ffff_f000) | size | mode;
        &&& value & 0xffff_ffff_ffff_f000 == start
        &&& value & 0xf == size
        &&& ((value >> 11) & 1 == 1) == (mode == 0x800)
        &&& value & 0x7f0 == 0
    }) by (bit_vector)
        requires
            start % 0x1000 == 0,
            size < 16,
            mode == 0x800 || mode == 0,
    ;
}

/// Fault events are turned off by bit 31 of the control register at 0x38. A
/// message is written first: its data at 0x3c, the low half of its address at
/// 0x40 and the high half at 0x44, and then the events are turned on.
pub proof fn law_fault_event_message_is_written_before_it_is_on(route: InterruptRoute)
    ensures
        ({
            let steps = super::registers::fault_event_steps(route);
            match route {
                InterruptRoute::Disabled => {
                    &&& steps.len() == 1
                    &&& steps[0] == (RegisterStep::Write32 { offset: 0x38, value: 0x8000_0000 })
                },
                InterruptRoute::Msi(message) => {
                    &&& steps.len() == 4
                    &&& steps[0] == (RegisterStep::Write32 { offset: 0x3c, value: message.data })
                    &&& steps[1] matches RegisterStep::Write32 { offset: at, value: low }
                        && steps[2] matches RegisterStep::Write32 { offset: above, value: high }
                        && at == 0x40 && above == 0x44 && message.address == low + high
                        * 0x1_0000_0000
                    &&& steps[3] == (RegisterStep::Write32 { offset: 0x38, value: 0 })
                },
            }
        }),
{
}

/// The widths that a unit offers are in bits 9 to 11 of its capabilities, for
/// 39, 48 and 57 bits of address; the best one is the widest of them. Leaves of
/// 2 MiB and 1 GiB are in bits 34 and 35, those of 4 KiB always offered, and
/// others never.
pub proof fn law_offers_are_bits_of_the_capabilities(cap: VtdCapability)
    ensures
        cap.spec_best_width() == (if bit_on(cap.0, 11) {
            Some(VtdSecondLevelAddressWidth::Bits57)
        } else if bit_on(cap.0, 10) {
            Some(VtdSecondLevelAddressWidth::Bits48)
        } else if bit_on(cap.0, 9) {
            Some(VtdSecondLevelAddressWidth::Bits39)
        } else {
            None
        }),
        cap.has_width(VtdSecondLevelAddressWidth::Bits39) == bit_on(cap.0, 9),
        cap.has_width(VtdSecondLevelAddressWidth::Bits48) == bit_on(cap.0, 10),
        cap.has_width(VtdSecondLevelAddressWidth::Bits57) == bit_on(cap.0, 11),
        cap.has_leaf_size(PageSize::Size4K),
        cap.has_leaf_size(PageSize::Size2M) == bit_on(cap.0, 34),
        cap.has_leaf_size(PageSize::Size1G) == bit_on(cap.0, 35),
        forall|size: PageSize|
            #[trigger] cap.has_leaf_size(size) ==> size.spec_bytes() == 0x1000 || size.spec_bytes()
                == 0x20_0000 || size.spec_bytes() == 0x4000_0000,
{
}

/// The mask of a leaf size says how many bits of a page number the leaf leaves
/// open: the leaf holds that power of two of 4 KiB pages.
pub proof fn law_granule_mask_counts_the_pages_of_a_leaf(size: PageSize)
    ensures
        match super::super::caps::granule_mask(size) {
            Some(mask) => size.spec_bytes() == 0x1000 * vstd::arithmetic::power2::pow2(mask as nat),
            None => size.spec_bytes() != 0x1000 && size.spec_bytes() != 0x20_0000
                && size.spec_bytes() != 0x4000_0000,
        },
{
    vstd::arithmetic::power2::lemma2_to64();
}

/// A context entry is read from its words: it is present in bit 0 of the low
/// one, has its kind in bits `[4:2]` and, where it is present and translates,
/// the page of its table in bits `[51:12]`. The high word has the width in bits
/// `[2:0]`, nine bits of address for each step above 30, and the domain in bits
/// `[23:8]`.
pub proof fn law_context_entry_is_read_from_its_words(entry: VtdContextEntry)
    ensures
        entry.spec_present() == bit_on(entry.low, 0),
        entry.spec_translation_type() == (entry.low >> 2) & 7,
        entry.spec_domain_id() == (entry.high >> 8) & 0xffff,
        ({
            let width = entry.high & 7;
            entry.spec_address_width_bits() == (if 1 <= width <= 3 {
                30 + 9 * width
            } else {
                30
            })
        }),
        entry.spec_page_table_root() is Some == (bit_on(entry.low, 0) && (entry.low >> 2) & 7 == 0),
        usize::BITS == 64 ==> (entry.spec_page_table_root() matches Some(root) ==> root.0
            == entry.low & 0x000f_ffff_ffff_f000),
{
    let (low, high) = (entry.low, entry.high);
    assert((low & 1 != 0) == ((low >> 0) & 1 == 1) && ((1u64 << 3) - 1) as u64 == 7 && ((1u64 << 16)
        - 1) as u64 == 0xffff && (high >> 0) == high) by (bit_vector);
}

/// A root entry is present in bit 0 of its low word, and then has the page of a
/// context table in bits `[51:12]`.
pub proof fn law_root_entry_is_read_from_its_words(entry: VtdRootEntry)
    ensures
        entry.spec_present() == bit_on(entry.low, 0),
        entry.spec_context_table_root() is Some == bit_on(entry.low, 0),
        usize::BITS == 64 ==> (entry.spec_context_table_root() matches Some(root) ==> root.0
            == entry.low & 0x000f_ffff_ffff_f000),
{
    let low = entry.low;
    assert((low & 1 != 0) == ((low >> 0) & 1 == 1)) by (bit_vector);
}

/// A binding is refused for the first of these that is wrong: it names more than
/// a requester, the requester is of another segment, the domain is not the
/// active one, or the requester's bus has no table.
pub proof fn law_binding_is_refused_for_what_is_wrong<Entry>(
    unit: UnitView<Entry>,
    active: VtdDomain,
    binding: Binding<PciDevice, VtdDomain>,
) where Entry: PageTableEntry
    ensures
        ({
            let r = unit.binding_update(active, binding);
            let undone = unit.unbinding_update(active, binding.client, binding.selector);
            let plain = binding.selector == BindingSelector::Default;
            let own = unit.info.base.segment matches Some(segment) ==> segment == binding.client.0
                / 0x1_0000;
            let other = binding.target matches BindingTarget::Domain(domain) && domain != active;
            let table = unit.context_tables[(binding.client.0 % 0x1_0000) as int / 0x100];
            &&& !plain ==> r == Err::<VtdContextUpdate, Error>(Error::FeatureUnavailable) && undone
                == Err::<VtdContextUpdate, Error>(Error::FeatureUnavailable)
            &&& plain && !own ==> r == Err::<VtdContextUpdate, Error>(Error::InvalidClient)
                && undone == Err::<VtdContextUpdate, Error>(Error::InvalidClient)
            &&& plain && own && other ==> r == Err::<VtdContextUpdate, Error>(
                Error::InvalidAddressSpace,
            )
            &&& plain && own && !other && table is None ==> r == Err::<VtdContextUpdate, Error>(
                Error::ControllerUnavailable,
            )
            &&& plain && own && table is None ==> undone == Err::<VtdContextUpdate, Error>(
                Error::ControllerUnavailable,
            )
        }),
{
}

/// Memory is accepted as a queue of a unit where its entries are 16 bytes each,
/// at least 256 of them and a power of two, up to 128 times as many, and where it
/// starts at a page.
pub proof fn law_unit_queue_has_whole_pages(backing: CommandQueueBacking)
    ensures
        match super::invalidation::queue_fault(backing) {
            None => {
                &&& backing.spec_entry_bytes() == 16
                &&& backing.spec_entry_count() >= 256
                &&& crate::bits::is_pow2(backing.spec_entry_count() as int)
                &&& backing.spec_phys().start.0 % 0x1000 == 0
            },
            Some(Error::InvalidGranule) => backing.spec_entry_bytes() != 16,
            Some(Error::InvalidAddress) => backing.spec_phys().start.0 % 0x1000 != 0,
            Some(error) => error == Error::InvalidRange && backing.spec_entry_bytes() == 16 && (
            backing.spec_entry_count() < 256 || !crate::bits::is_pow2(
                backing.spec_entry_count() as int,
            ) || crate::bits::spec_log2(backing.spec_entry_count() as int / 256) > 7),
        },
{
}

/// A register is mapped as far behind the start of its frame as its offset
/// says; it is refused where it does not lie in the frame, and where its address
/// or its end is no address.
pub proof fn law_register_lies_in_its_frame<Entry>(
    window: VtdRegisterWindow<Entry>,
    offset: usize,
    width: usize,
) where Entry: PageTableEntry
    ensures
        ({
            let frame = window.mapping.range;
            match window.spec_register_vaddr(offset, width) {
                Ok(vaddr) => vaddr.0 == frame.start.0 + offset && offset + width
                    <= frame.spec_size(),
                Err(Error::InvalidRange) => offset + width > frame.spec_size(),
                Err(error) => error == Error::AddressOverflow && (offset + width > usize::MAX
                    || frame.start.0 + offset > usize::MAX),
            }
        }),
{
}

/// A remapping target takes over every part of a delivery: where it goes, by
/// which vector and mode, how it is triggered, and the hint.
pub proof fn law_remap_target_is_the_delivery(delivery: X86MsiDelivery)
    ensures
        ({
            let target = VtdInterruptRemapTarget::of_delivery(delivery);
            let message = delivery.spec_message();
            &&& target.destination == (message.address >> 12) & 0xff
            &&& target.vector@ == message.data & 0xff
            &&& target.delivery_mode == delivery.delivery_mode
            &&& (target.trigger_mode is Level) == (message.data & 0x8000 != 0)
            &&& target.destination_mode_logical == (message.address & 0x04 != 0)
            &&& target.redirection_hint == (message.address & 0x08 != 0)
        }),
{
    crate::arch::x86_64::interrupt::law_message_holds_every_part(delivery);
}

/// Memory is accepted as a remapping table where it has 2 to 65536 entries, a
/// power of two, of 16 bytes each, that fit into both of its ranges and start at
/// a page.
pub proof fn law_remap_table_has_its_entries(
    phys: PhysAddrRange,
    virt: VirtAddrRange,
    entry_count: usize,
)
    ensures
        super::remap::remap_table_fault(phys, virt, entry_count) is None <==> {
            &&& 2 <= entry_count <= 0x1_0000
            &&& crate::bits::is_pow2(entry_count as int)
            &&& entry_count * 16 <= phys.spec_size()
            &&& entry_count * 16 <= virt.spec_size()
            &&& phys.start.0 % 0x1000 == 0
            &&& virt.start.0 % 8 == 0
        },
        !(2 <= entry_count <= 0x1_0000 && crate::bits::is_pow2(entry_count as int)) ==>
            super::remap::remap_table_fault(phys, virt, entry_count) == Some(Error::InvalidRange),
{
}

/// A range of pages can be split where leaves of the smallest mask tile it: it
/// starts at one and ends at one, and the largest mask is not below the
/// smallest. An empty range always can.
pub proof fn law_range_is_split_where_leaves_tile_it(
    start_page: usize,
    page_count: usize,
    min_mask: u8,
    max_mask: u8,
)
    requires
        min_mask < 32,
    ensures
        ({
            let leaf = vstd::arithmetic::power2::pow2(min_mask as nat) as int;
            match super::plan::range_fault(start_page, page_count, min_mask, max_mask) {
                None => page_count == 0 || (min_mask <= max_mask && start_page as int % leaf == 0
                    && page_count as int % leaf == 0),
                Some(error) => {
                    &&& page_count > 0
                    &&& error == Error::FeatureUnavailable <==> max_mask < min_mask
                    &&& max_mask >= min_mask ==> error == Error::InvalidRange && (start_page as int
                        % leaf != 0 || page_count as int % leaf != 0)
                },
            }
        }),
{
}

/// An event writes a descriptor to the ring: its low word in the first eight
/// bytes of the slot, its high word in the next eight.
pub open spec fn writes_descriptor(
    event: QueueEvent,
    descriptor: VtdQueuedInvalidationDescriptor,
) -> bool {
    event matches QueueEvent::WriteSlot { image, .. } && {
        &&& image.len() >= 16
        &&& crate::bytes::le64(image, 0) == descriptor.low
        &&& crate::bytes::le64(image, 8) == descriptor.high
    }
}

/// The descriptors were written one behind the other, at the given places of
/// the log.
pub open spec fn written_at(
    descriptors: Seq<VtdQueuedInvalidationDescriptor>,
    events: Seq<QueueEvent>,
    from: int,
    places: Seq<int>,
) -> bool {
    &&& places.len() == descriptors.len()
    &&& forall|k: int|
        0 <= k < places.len() ==> from <= #[trigger] places[k] < events.len() && writes_descriptor(
            events[places[k]],
            descriptors[k],
        )
    &&& forall|j: int, k: int|
        0 <= j < k < places.len() ==> #[trigger] places[j] < #[trigger] places[k]
}

/// A descriptor that was carried out was written to the ring first of all, and
/// took one ticket.
#[verifier::rlimit(40)]
proof fn lemma_descriptor_is_written(
    descriptor: VtdQueuedInvalidationDescriptor,
    before: QueueView,
    after: QueueView,
    log: Seq<QueueEvent>,
    extended: Seq<QueueEvent>,
)
    requires
        super::invalidation::descriptor_carried_out(
            descriptor,
            before,
            after,
            log,
            extended,
            Ok(()),
        ),
        before.claim < usize::MAX,
    ensures
        log.is_prefix_of(extended),
        log.len() < extended.len(),
        writes_descriptor(extended[log.len() as int], descriptor),
        after.claim == before.claim + 1,
        after.backing == before.backing,
{
    let events = extended.skip(log.len() as int);
    let (command, report) = choose|command: Seq<u8>, report: QueueReport|
        {
            &&& command.len() == 16
            &&& crate::bytes::le64(command, 0) == descriptor.low
            &&& crate::bytes::le64(command, 8) == descriptor.high
            &&& #[trigger] crate::device::reported(before, after, command, events, report)
            &&& Ok::<(), Error>(()) == report.spec_outcome()
        };
    crate::device::law_outcome_tells_of_both(report);
    assert(before.claim_fault(16) is None);
    crate::device::law_submission_takes_one_ticket(
        before,
        after,
        command,
        events,
        report.submitted,
    );
    crate::device::law_successful_submission_does_its_script(
        before,
        after,
        command,
        events,
        report.submitted,
    );
    assert(events[0] == extended[log.len() as int]);
    let image = crate::queue::slot_image(command, before.ring().spec_entry_bytes() as int);
    assert(forall|i: int| 0 <= i < 16 ==> #[trigger] image[i] == command[i]);
    assert(crate::bytes::le64(image, 0) == crate::bytes::le64(command, 0));
    assert(crate::bytes::le64(image, 8) == crate::bytes::le64(command, 8));
}

/// Where a list of descriptors was carried out, each of them was written to the
/// ring, in the order of the list, and took one ticket; the queue stays on its
/// ring.
#[verifier::rlimit(40)]
pub proof fn law_descriptors_are_written_in_order(
    descriptors: Seq<VtdQueuedInvalidationDescriptor>,
    before: QueueView,
    after: QueueView,
    log: Seq<QueueEvent>,
    extended: Seq<QueueEvent>,
) -> (places: Seq<int>)
    requires
        super::invalidation::all_carried_out(descriptors, before, after, log, extended),
        before.claim + descriptors.len() <= usize::MAX,
    ensures
        written_at(descriptors, extended, log.len() as int, places),
        after.claim == before.claim + descriptors.len(),
        after.backing == before.backing,
        log.is_prefix_of(extended),
    decreases descriptors.len(),
{
    if descriptors.len() == 0 {
        Seq::empty()
    } else {
        let front = descriptors.drop_last();
        let last = descriptors.last();
        let (queue, logged) = choose|queue: QueueView, logged: Seq<QueueEvent>|
            {
                &&& super::invalidation::all_carried_out(front, before, queue, log, logged)
                &&& #[trigger] super::invalidation::descriptor_carried_out(
                    last,
                    queue,
                    after,
                    logged,
                    extended,
                    Ok(()),
                )
            };
        let places = law_descriptors_are_written_in_order(front, before, queue, log, logged);
        lemma_descriptor_is_written(last, queue, after, logged, extended);
        assert(log =~= extended.take(log.len() as int)) by {
            assert(log =~= logged.take(log.len() as int));
            assert(logged =~= extended.take(logged.len() as int));
        }
        let all = places.push(logged.len() as int);
        assert forall|k: int| 0 <= k < all.len() implies log.len() <= #[trigger] all[k]
            < extended.len() && writes_descriptor(extended[all[k]], descriptors[k]) by {
            if k < places.len() {
                assert(all[k] == places[k]);
                assert(front[k] == descriptors[k]);
                assert(logged[places[k]] == extended[places[k]]);
            }
        }
        assert forall|j: int, k: int| 0 <= j < k < all.len() implies #[trigger] all[j]
            < #[trigger] all[k] by {
            if k < places.len() {
                assert(all[j] == places[j] && all[k] == places[k]);
            } else {
                assert(all[j] == places[j]);
            }
        }
        all
    }
}

/// Where one of a list of descriptors failed, those in front of it were written
/// in order, and none behind it was handed over: at most one more ticket is
/// taken than there are descriptors in front of it.
#[verifier::rlimit(40)]
pub proof fn law_failed_descriptor_ends_its_list(
    descriptors: Seq<VtdQueuedInvalidationDescriptor>,
    k: int,
    before: QueueView,
    after: QueueView,
    log: Seq<QueueEvent>,
    extended: Seq<QueueEvent>,
    error: Error,
) -> (places: Seq<int>)
    requires
        super::invalidation::stopped_at(
            descriptors,
            k,
            before,
            after,
            log,
            extended,
            error,
        ),
        before.claim + descriptors.len() <= usize::MAX,
    ensures
        0 <= k < descriptors.len(),
        written_at(descriptors.take(k), extended, log.len() as int, places),
        before.claim + k <= after.claim <= before.claim + k + 1,
        after.backing == before.backing,
        log.is_prefix_of(extended),
{
    let (queue, logged) = choose|queue: QueueView, logged: Seq<QueueEvent>|
        {
            &&& super::invalidation::all_carried_out(
                descriptors.take(k),
                before,
                queue,
                log,
                logged,
            )
            &&& #[trigger] super::invalidation::descriptor_carried_out(
                descriptors[k],
                queue,
                after,
                logged,
                extended,
                Err(error),
            )
        };
    let front = descriptors.take(k);
    let places = law_descriptors_are_written_in_order(front, before, queue, log, logged);
    let events = extended.skip(logged.len() as int);
    let (command, report) = choose|command: Seq<u8>, report: QueueReport|
        {
            &&& command.len() == 16
            &&& crate::bytes::le64(command, 0) == descriptors[k].low
            &&& crate::bytes::le64(command, 8) == descriptors[k].high
            &&& #[trigger] crate::device::reported(queue, after, command, events, report)
            &&& Err::<(), Error>(error) == report.spec_outcome()
        };
    crate::device::law_submission_takes_one_ticket(
        queue,
        after,
        command,
        events,
        report.submitted,
    );
    assert(log =~= extended.take(log.len() as int)) by {
        assert(log =~= logged.take(log.len() as int));
        assert(logged =~= extended.take(logged.len() as int));
    }
    assert forall|i: int| 0 <= i < places.len() implies log.len() <= #[trigger] places[i]
        < extended.len() && writes_descriptor(extended[places[i]], front[i]) by {
        assert(logged[places[i]] == extended[places[i]]);
    }
    places
}

/// A list of descriptors that ends well was written whole and took a ticket for
/// each; one that fails was written up to a descriptor of it, and what that one
/// failed with is the error.
pub proof fn law_list_tells_how_far_it_went(
    descriptors: Seq<VtdQueuedInvalidationDescriptor>,
    before: QueueView,
    after: QueueView,
    log: Seq<QueueEvent>,
    extended: Seq<QueueEvent>,
    r: Result<(), Error>,
) -> (places: Seq<int>)
    requires
        super::invalidation::carried_out_in_order(
            descriptors,
            before,
            after,
            log,
            extended,
            r,
        ),
        before.claim + descriptors.len() <= usize::MAX,
    ensures
        places.len() <= descriptors.len(),
        written_at(
            descriptors.take(places.len() as int),
            extended,
            log.len() as int,
            places,
        ),
        r is Ok ==> places.len() == descriptors.len() && after.claim == before.claim
            + descriptors.len(),
        r is Err ==> places.len() < descriptors.len() && before.claim + places.len() <= after.claim
            <= before.claim + places.len() + 1,
        r matches Err(error) ==> exists|queue: QueueView, logged: Seq<QueueEvent>| #[trigger]
            super::invalidation::descriptor_carried_out(
                descriptors[places.len() as int],
                queue,
                after,
                logged,
                extended,
                Err(error),
            ),
{
    match r {
        Ok(_) => {
            assert(descriptors.take(descriptors.len() as int) =~= descriptors);
            law_descriptors_are_written_in_order(descriptors, before, after, log, extended)
        },
        Err(error) => {
            let k = choose|k: int| #[trigger]
                super::invalidation::stopped_at(
                    descriptors,
                    k,
                    before,
                    after,
                    log,
                    extended,
                    error,
                );
            law_failed_descriptor_ends_its_list(
                descriptors,
                k,
                before,
                after,
                log,
                extended,
                error,
            )
        },
    }
}

/// The requests that reach everything name nothing: the one for context entries
/// is of the first kind, and that for translations of the second, each with the
/// widest reach.
pub proof fn law_global_requests_name_nothing(cap: VtdCapability)
    ensures
        ({
            let context = VtdQueuedInvalidationDescriptor::spec_context_global();
            let iotlb = VtdQueuedInvalidationDescriptor::spec_iotlb_global(cap);
            &&& context.low == 0x11
            &&& context.high == 0
            &&& iotlb.low == 0x12 + (if bit_on(cap.0, 55) {
                0x80int
            } else {
                0
            }) + (if bit_on(cap.0, 54) {
                0x40int
            } else {
                0
            })
            &&& iotlb.high == 0
        }),
{
    assert(0x12u64 | (0u64 | 0u64) == 0x12 && 0x12u64 | (0x80u64 | 0u64) == 0x92 && 0x12u64 | (0u64
        | 0x40u64) == 0x52 && 0x12u64 | (0x80u64 | 0x40u64) == 0xd2) by (bit_vector);
}

} // verus!
