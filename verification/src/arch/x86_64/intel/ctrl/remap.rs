//! Interrupt remapping: table entries, the memory that holds them, and the
//! messages that select them.

use vstd::prelude::*;
use vstd::std_specs::convert::FromSpecImpl;

use crate::addr::{PhysAddrRange, VirtAddr, VirtAddrRange};
use crate::arch::x86_64::interrupt::{
    X86InterruptVector, X86MsiDelivery, X86MsiDeliveryMode, X86MsiDestination, X86MsiTriggerMode,
};
use crate::bits;
use crate::ctrl::{DescriptorTableBacking, MsiMessage, TableWrite};
use crate::error::Error;
use crate::firm::pcie::PciDevice;
use crate::memory::PageSize;

verus! {

pub const INTERRUPT_REMAP_ENTRY_BYTES: usize = 16;

pub const INTERRUPT_REMAP_MIN_ENTRIES: usize = 2;

pub const INTERRUPT_REMAP_MAX_ENTRIES: usize = 0x1_0000;

const IRTE_PRESENT: u64 = 0x01;

const IRTE_DESTINATION_MODE_LOGICAL: u64 = 0x04;

const IRTE_REDIRECTION_HINT: u64 = 0x08;

const IRTE_TRIGGER_MODE_LEVEL: u64 = 0x10;

/// Full comparison of the requester identity with the entry's.
const IRTE_SOURCE_VALIDATION_VERIFY_SOURCE_ID: u64 = 0x4_0000;

/// Interrupt-remapping table entry index.
#[derive(Clone, Copy, Debug, PartialEq, Eq, PartialOrd, Ord, Hash, Structural)]
pub struct VtdInterruptEntry(pub u16);

impl VtdInterruptEntry {
    pub fn new(index: u16) -> (r: Self)
        ensures
            r == VtdInterruptEntry(index),
    {
        VtdInterruptEntry(index)
    }

    pub fn as_u16(self) -> (r: u16)
        ensures
            r == self.0,
    {
        self.0
    }

    pub fn remapped_msi(self, subhandle: u16) -> (r: VtdRemappedMsi)
        ensures
            r == VtdRemappedMsi::of(self, subhandle),
    {
        VtdRemappedMsi::new(self, subhandle)
    }
}

impl Default for VtdInterruptEntry {
    fn default() -> (r: Self)
        ensures
            r == VtdInterruptEntry(0),
    {
        VtdInterruptEntry(0)
    }
}

/// Caller-provided backing for a VT-d interrupt-remapping table.
///
/// The backing must contain `entry_count` contiguous 128-bit IRTE slots and
/// must remain writable while interrupt remapping can consult it.
#[derive(Clone, Copy, Debug, PartialEq, Eq)]
pub struct VtdInterruptRemapTableBacking {
    backing: DescriptorTableBacking<16>,
}

/// What is wrong with a remapping table of the given shape, if anything.
pub open spec fn remap_table_fault(
    phys: PhysAddrRange,
    virt: VirtAddrRange,
    entry_count: usize,
) -> Option<Error> {
    if !(2 <= entry_count <= 0x1_0000) || !bits::is_pow2(entry_count as int) {
        Some(Error::InvalidRange)
    } else {
        crate::ctrl::table_fault(phys, virt, entry_count, 16, 0x1000)
    }
}

impl VtdInterruptRemapTableBacking {
    pub closed spec fn spec_backing(self) -> DescriptorTableBacking<16> {
        self.backing
    }

    /// A power of two of entries, between two and 65536, aligned to a page.
    pub open spec fn wf(self) -> bool {
        remap_table_fault(
            self.spec_backing().spec_phys(),
            self.spec_backing().spec_virt(),
            self.spec_backing().spec_entry_count(),
        ) is None
    }

    pub fn new(phys: PhysAddrRange, virt: VirtAddrRange, entry_count: usize) -> (r: Result<
        Self,
        Error,
    >)
        ensures
            match r {
                Ok(table) => {
                    &&& remap_table_fault(phys, virt, entry_count) is None
                    &&& table.wf()
                    &&& table.spec_backing().spec_phys() == phys
                    &&& table.spec_backing().spec_virt() == virt
                    &&& table.spec_backing().spec_entry_count() == entry_count
                },
                Err(error) => remap_table_fault(phys, virt, entry_count) == Some(error),
            },
    {
        if entry_count < INTERRUPT_REMAP_MIN_ENTRIES || entry_count > INTERRUPT_REMAP_MAX_ENTRIES
            || !bits::is_power_of_two(entry_count) {
            return Err(Error::InvalidRange);
        }
        match DescriptorTableBacking::new_aligned(
            phys,
            virt,
            entry_count,
            PageSize::Size4K.bytes(),
        ) {
            Ok(backing) => Ok(VtdInterruptRemapTableBacking { backing }),
            Err(error) => Err(error),
        }
    }

    pub fn backing(self) -> (r: DescriptorTableBacking<16>)
        ensures
            r == self.spec_backing(),
    {
        self.backing
    }

    pub fn phys(self) -> (r: PhysAddrRange)
        ensures
            r == self.spec_backing().spec_phys(),
    {
        self.backing.phys()
    }

    pub fn virt(self) -> (r: VirtAddrRange)
        ensures
            r == self.spec_backing().spec_virt(),
    {
        self.backing.virt()
    }

    pub fn entry_count(self) -> (r: usize)
        ensures
            r == self.spec_backing().spec_entry_count(),
    {
        self.backing.entry_count()
    }

    pub fn entry_bytes(self) -> (r: usize)
        ensures
            r == 16,
    {
        self.backing.entry_bytes()
    }

    pub fn byte_len(self) -> (r: usize)
        requires
            self.wf(),
        ensures
            r == self.spec_backing().spec_entry_count() * 16,
    {
        self.backing.byte_len()
    }

    /// The size field of the table address register: a table of two to the
    /// power of one more than it.
    pub open spec fn spec_irta_size(self) -> int {
        bits::spec_log2(self.spec_backing().spec_entry_count() as int) - 1
    }

    pub fn irta_size(self) -> (r: u64)
        requires
            self.wf(),
        ensures
            r == self.spec_irta_size(),
            r <= 15,
            vstd::arithmetic::power2::pow2((r + 1) as nat)
                == self.spec_backing().spec_entry_count(),
    {
        let count: usize = self.entry_count();
        let log: u32 = bits::floor_log2(count);
        proof {
            bits::lemma_log2_of_pow2(count as int);
            vstd::arithmetic::power2::lemma2_to64();
            if log > 16 {
                vstd::arithmetic::power2::lemma_pow2_strictly_increases(16, log as nat);
            }
        }
        (log - 1) as u64
    }

    pub fn entry_vaddr(self, entry: VtdInterruptEntry) -> (r: Result<VirtAddr, Error>)
        ensures
            r == self.spec_backing().spec_entry_vaddr(entry.0 as usize),
    {
        self.backing.entry_vaddr(entry.as_u16() as usize)
    }
}

/// The address word of a message that selects `entry`: the low 15 bits of the
/// index in bits `[19:5]` and its high bit in bit 2, with a subhandle, in the
/// remappable format.
pub open spec fn remapped_address(entry: u16) -> u64 {
    0xfee0_0000u64 | 0x08 | 0x10 | ((((entry as u64) >> 15) & 1) << 2) | (((entry & 0x7fff) as u64)
        << 5)
}

/// VT-d remapped MSI/MSI-X message produced for a device-side MSI source.
#[derive(Clone, Copy, Debug, PartialEq, Eq, Hash, Structural)]
pub struct VtdRemappedMsi {
    pub entry: VtdInterruptEntry,
    pub subhandle: u16,
    pub message: MsiMessage,
}

impl VtdRemappedMsi {
    pub open spec fn of(entry: VtdInterruptEntry, subhandle: u16) -> Self {
        VtdRemappedMsi {
            entry,
            subhandle,
            message: MsiMessage { address: remapped_address(entry.0), data: subhandle as u32 },
        }
    }

    pub fn new(entry: VtdInterruptEntry, subhandle: u16) -> (r: Self)
        ensures
            r == Self::of(entry, subhandle),
    {
        let raw: u16 = entry.as_u16();
        let address: u64 = 0xfee0_0000u64 | 0x08 | 0x10 | ((((raw as u64) >> 15) & 1) << 2) | (((raw
            & 0x7fff) as u64) << 5);
        VtdRemappedMsi { entry, subhandle, message: MsiMessage::new(address, subhandle as u32) }
    }

    pub fn entry(self) -> (r: VtdInterruptEntry)
        ensures
            r == self.entry,
    {
        self.entry
    }

    pub fn subhandle(self) -> (r: u16)
        ensures
            r == self.subhandle,
    {
        self.subhandle
    }

    pub fn message(self) -> (r: MsiMessage)
        ensures
            r == self.message,
    {
        self.message
    }
}

impl From<VtdRemappedMsi> for MsiMessage {
    fn from(value: VtdRemappedMsi) -> (r: Self) {
        value.message
    }
}

impl FromSpecImpl<VtdRemappedMsi> for MsiMessage {
    open spec fn obeys_from_spec() -> bool {
        true
    }

    open spec fn from_spec(value: VtdRemappedMsi) -> Self {
        value.message
    }
}

/// The index that a remapped message selects can be read back from its address,
/// which lies in the interrupt window and has the remappable format.
pub proof fn law_remapped_message_selects_its_entry(entry: VtdInterruptEntry)
    ensures
        ({
            let address = remapped_address(entry.0);
            &&& (((address >> 5) & 0x7fff) | (((address >> 2) & 1) << 15)) == entry.0
            &&& address >> 20 == 0xfee
            &&& address & 0x18 == 0x18
        }),
{
    let raw = entry.0;
    assert((((remapped_address(raw) >> 5) & 0x7fff) | (((remapped_address(raw) >> 2) & 1) << 15))
        == raw && remapped_address(raw) >> 20 == 0xfee && remapped_address(raw) & 0x18 == 0x18)
        by (bit_vector);
}

/// VT-d interrupt-remapping delivery target.
#[derive(Clone, Copy, Debug, PartialEq, Eq, Hash)]
pub struct VtdInterruptRemapTarget {
    pub destination: u32,
    pub vector: X86InterruptVector,
    pub delivery_mode: X86MsiDeliveryMode,
    pub trigger_mode: X86MsiTriggerMode,
    pub destination_mode_logical: bool,
    pub redirection_hint: bool,
}

impl VtdInterruptRemapTarget {
    pub fn new(
        destination: u32,
        vector: X86InterruptVector,
        delivery_mode: X86MsiDeliveryMode,
    ) -> (r: Self)
        ensures
            r == (VtdInterruptRemapTarget {
                destination,
                vector,
                delivery_mode,
                trigger_mode: X86MsiTriggerMode::Edge,
                destination_mode_logical: false,
                redirection_hint: false,
            }),
    {
        VtdInterruptRemapTarget {
            destination,
            vector,
            delivery_mode,
            trigger_mode: X86MsiTriggerMode::Edge,
            destination_mode_logical: false,
            redirection_hint: false,
        }
    }

    /// The target that a delivery is sent to. Its level is not part of it.
    pub open spec fn of_delivery(delivery: X86MsiDelivery) -> Self {
        VtdInterruptRemapTarget {
            destination: delivery.destination.spec_id() as u32,
            vector: delivery.vector,
            delivery_mode: delivery.delivery_mode,
            trigger_mode: delivery.trigger_mode,
            destination_mode_logical: delivery.destination is Logical,
            redirection_hint: delivery.redirection_hint,
        }
    }

    pub fn from_x86_delivery(delivery: X86MsiDelivery) -> (r: Self)
        ensures
            r == Self::of_delivery(delivery),
    {
        VtdInterruptRemapTarget {
            destination: delivery.destination().id() as u32,
            vector: delivery.vector(),
            delivery_mode: delivery.delivery_mode(),
            trigger_mode: delivery.trigger_mode(),
            destination_mode_logical: delivery.destination().is_logical(),
            redirection_hint: delivery.redirection_hint(),
        }
    }

    pub fn with_trigger_mode(self, trigger_mode: X86MsiTriggerMode) -> (r: Self)
        ensures
            r == (VtdInterruptRemapTarget { trigger_mode, ..self }),
    {
        VtdInterruptRemapTarget { trigger_mode, ..self }
    }

    pub fn with_logical_destination_mode(self, enabled: bool) -> (r: Self)
        ensures
            r == (VtdInterruptRemapTarget { destination_mode_logical: enabled, ..self }),
    {
        VtdInterruptRemapTarget { destination_mode_logical: enabled, ..self }
    }

    pub fn with_redirection_hint(self, enabled: bool) -> (r: Self)
        ensures
            r == (VtdInterruptRemapTarget { redirection_hint: enabled, ..self }),
    {
        VtdInterruptRemapTarget { redirection_hint: enabled, ..self }
    }

    pub fn destination(self) -> (r: u32)
        ensures
            r == self.destination,
    {
        self.destination
    }

    pub fn vector(self) -> (r: X86InterruptVector)
        ensures
            r == self.vector,
    {
        self.vector
    }

    pub fn delivery_mode(self) -> (r: X86MsiDeliveryMode)
        ensures
            r == self.delivery_mode,
    {
        self.delivery_mode
    }

    pub fn trigger_mode(self) -> (r: X86MsiTriggerMode)
        ensures
            r == self.trigger_mode,
    {
        self.trigger_mode
    }

    pub fn destination_mode_logical(self) -> (r: bool)
        ensures
            r == self.destination_mode_logical,
    {
        self.destination_mode_logical
    }

    pub fn redirection_hint(self) -> (r: bool)
        ensures
            r == self.redirection_hint,
    {
        self.redirection_hint
    }
}

/// The low word of a present remapping entry: the logical mode in bit 2, the
/// redirection hint in bit 3, the trigger mode in bit 4, the delivery mode in
/// bits `[7:5]`, the vector in bits `[23:16]` and the destination in bits
/// `[63:32]`.
pub open spec fn remap_low(
    destination: u32,
    vector: u8,
    mode: u8,
    logical: bool,
    hint: bool,
    level_triggered: bool,
) -> u64 {
    0x01u64 | ((mode as u64) << 5) | ((vector as u64) << 16) | ((destination as u64) << 32) | (
    if logical {
        0x04u64
    } else {
        0
    }) | (if hint {
        0x08u64
    } else {
        0
    }) | (if level_triggered {
        0x10u64
    } else {
        0
    })
}

/// The high word of a remapping entry: the requester identity in bits `[15:0]`,
/// all of which are compared.
pub open spec fn remap_high(source_id: u16) -> u64 {
    (source_id as u64) | 0x4_0000
}

/// Raw VT-d interrupt-remapping table entry.
#[derive(Clone, Copy, Debug, PartialEq, Eq, Hash, Structural)]
pub struct VtdInterruptRemapEntry {
    pub low: u64,
    pub high: u64,
}

impl VtdInterruptRemapEntry {
    pub fn from_words(low: u64, high: u64) -> (r: Self)
        ensures
            r == (VtdInterruptRemapEntry { low, high }),
    {
        VtdInterruptRemapEntry { low, high }
    }

    pub fn disabled() -> (r: Self)
        ensures
            r == (VtdInterruptRemapEntry { low: 0, high: 0 }),
    {
        VtdInterruptRemapEntry { low: 0, high: 0 }
    }

    /// The entry that sends the interrupts of `source` to `target`.
    pub open spec fn of_target(source: PciDevice, target: VtdInterruptRemapTarget) -> Self {
        VtdInterruptRemapEntry {
            low: remap_low(
                target.destination,
                target.vector@,
                target.delivery_mode.spec_code(),
                target.destination_mode_logical,
                target.redirection_hint,
                target.trigger_mode is Level,
            ),
            high: remap_high(source.spec_bdf().0),
        }
    }

    pub fn from_target(source: PciDevice, target: VtdInterruptRemapTarget) -> (r: Self)
        ensures
            r == Self::of_target(source, target),
    {
        let logical: u64 = if target.destination_mode_logical() {
            IRTE_DESTINATION_MODE_LOGICAL
        } else {
            0
        };
        let hint: u64 = if target.redirection_hint() {
            IRTE_REDIRECTION_HINT
        } else {
            0
        };
        let trigger: u64 = if target.trigger_mode() == X86MsiTriggerMode::Level {
            IRTE_TRIGGER_MODE_LEVEL
        } else {
            0
        };
        let low: u64 = IRTE_PRESENT | ((target.delivery_mode().code() as u64) << 5) | ((
        target.vector().get() as u64) << 16) | ((target.destination() as u64) << 32) | logical
            | hint | trigger;
        let high: u64 = (source.bdf().as_u16() as u64) | IRTE_SOURCE_VALIDATION_VERIFY_SOURCE_ID;
        Self::from_words(low, high)
    }

    pub fn from_x86_delivery(source: PciDevice, delivery: X86MsiDelivery) -> (r: Self)
        ensures
            r == Self::of_target(source, VtdInterruptRemapTarget::of_delivery(delivery)),
    {
        Self::from_target(source, VtdInterruptRemapTarget::from_x86_delivery(delivery))
    }

    /// The entry for fixed delivery of an external vector.
    pub fn fixed(source: PciDevice, destination: X86MsiDestination, vector: u8) -> (r: Result<
        Self,
        Error,
    >)
        ensures
            match r {
                Ok(entry) => vector >= 32 && entry == (VtdInterruptRemapEntry {
                    low: remap_low(
                        destination.spec_id() as u32,
                        vector,
                        0,
                        destination is Logical,
                        false,
                        false,
                    ),
                    high: remap_high(source.spec_bdf().0),
                }),
                Err(error) => vector < 32 && error == Error::InvalidRange,
            },
    {
        let vector = match X86InterruptVector::new(vector) {
            Ok(vector) => vector,
            Err(_) => return Err(Error::InvalidRange),
        };
        Ok(
            Self::from_target(
                source,
                VtdInterruptRemapTarget::from_x86_delivery(
                    X86MsiDelivery::new(destination, vector, X86MsiDeliveryMode::Fixed),
                ),
            ),
        )
    }

    pub fn low(self) -> (r: u64)
        ensures
            r == self.low,
    {
        self.low
    }

    pub fn high(self) -> (r: u64)
        ensures
            r == self.high,
    {
        self.high
    }

    pub open spec fn spec_present(self) -> bool {
        self.low & 1 != 0
    }

    pub fn present(self) -> (r: bool)
        ensures
            r == self.spec_present(),
    {
        (self.low & IRTE_PRESENT) != 0
    }
}

impl Default for VtdInterruptRemapEntry {
    fn default() -> (r: Self)
        ensures
            r == (VtdInterruptRemapEntry { low: 0, high: 0 }),
    {
        Self::disabled()
    }
}

/// A remapping entry is present, and every part of its source and target can be
/// read back from its field.
pub proof fn law_remap_entry_holds_every_part(source: PciDevice, target: VtdInterruptRemapTarget)
    ensures
        ({
            let entry = VtdInterruptRemapEntry::of_target(source, target);
            &&& entry.spec_present()
            &&& (entry.low & 0x04 != 0) == target.destination_mode_logical
            &&& (entry.low & 0x08 != 0) == target.redirection_hint
            &&& (entry.low & 0x10 != 0) == (target.trigger_mode is Level)
            &&& (entry.low >> 5) & 0x7 == target.delivery_mode.spec_code()
            &&& (entry.low >> 16) & 0xff == target.vector@
            &&& entry.low >> 32 == target.destination
            &&& entry.high & 0xffff == source.spec_bdf().0
            &&& (entry.high >> 16) & 0x3 == 0
            &&& (entry.high >> 18) & 0x3 == 1
        }),
{
    lemma_remap_fields(
        target.destination,
        target.vector@,
        target.delivery_mode.spec_code(),
        target.destination_mode_logical,
        target.redirection_hint,
        target.trigger_mode is Level,
        source.spec_bdf().0,
    );
}

proof fn lemma_remap_fields(
    destination: u32,
    vector: u8,
    mode: u8,
    logical: bool,
    hint: bool,
    triggered: bool,
    source: u16,
)
    by (bit_vector)
    requires
        mode <= 7,
    ensures
        remap_low(destination, vector, mode, logical, hint, triggered) & 1 != 0,
        (remap_low(destination, vector, mode, logical, hint, triggered) & 0x04 != 0) == logical,
        (remap_low(destination, vector, mode, logical, hint, triggered) & 0x08 != 0) == hint,
        (remap_low(destination, vector, mode, logical, hint, triggered) & 0x10 != 0) == triggered,
        (remap_low(destination, vector, mode, logical, hint, triggered) >> 5) & 0x7 == mode,
        (remap_low(destination, vector, mode, logical, hint, triggered) >> 16) & 0xff == vector,
        remap_low(destination, vector, mode, logical, hint, triggered) >> 32 == destination,
        remap_high(source) & 0xffff == source,
        (remap_high(source) >> 16) & 0x3 == 0,
        (remap_high(source) >> 18) & 0x3 == 1,
{
}

/// The table entry at the index of `entry`, with the words of `remap`.
pub open spec fn remap_write(
    table: VtdInterruptRemapTableBacking,
    entry: VtdInterruptEntry,
    remap: VtdInterruptRemapEntry,
) -> Result<TableWrite, Error> {
    match table.spec_backing().spec_entry_vaddr(entry.0 as usize) {
        Ok(vaddr) => Ok(TableWrite { vaddr, low: remap.low, high: remap.high }),
        Err(error) => Err(error),
    }
}

/// What is to be written to route the interrupts that select `entry`.
pub fn write_interrupt_remap_entry(
    table: VtdInterruptRemapTableBacking,
    entry: VtdInterruptEntry,
    remap: VtdInterruptRemapEntry,
) -> (r: Result<TableWrite, Error>)
    ensures
        r == remap_write(table, entry, remap),
{
    match table.entry_vaddr(entry) {
        Ok(vaddr) => Ok(TableWrite { vaddr, low: remap.low(), high: remap.high() }),
        Err(error) => Err(error),
    }
}

} // verus!
