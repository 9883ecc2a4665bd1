//! Requester-routing tables: root entries, context entries, and the memory that
//! holds them.

use vstd::prelude::*;

use super::super::caps::VtdExtendedCapability;
use super::super::info::VtdDomain;
use crate::addr::{PhysAddr, PhysAddrRange, VirtAddr, VirtAddrRange};
use crate::bits;
use crate::caps::{Binding, BindingSelector, BindingTarget};
use crate::ctrl::{DescriptorTableBacking, TableWrite};
use crate::error::Error;
use crate::firm::pcie::PciDevice;
use crate::memory::PageSize;

verus! {

pub const ROOT_ENTRY_BYTES: usize = 16;

pub const ROOT_ENTRY_COUNT: usize = 256;

pub const CONTEXT_ENTRY_BYTES: usize = 16;

pub const CONTEXT_ENTRY_COUNT: usize = 256;

const ROOT_ENTRY_PRESENT: u64 = 0x01;

const CONTEXT_PRESENT: u64 = 0x01;

/// The entry's requester is translated by a second-level table.
pub const CONTEXT_TRANSLATION_TYPE_MULTI_LEVEL: u8 = 0;

/// The entry's requester is not translated.
pub const CONTEXT_TRANSLATION_TYPE_PASS_THROUGH: u8 = 2;

const TABLE_ADDR_MASK: u64 = 0x000f_ffff_ffff_f000;

/// The table address field of a root or context entry, bits `[51:12]`.
pub open spec fn table_address(word: u64) -> u64 {
    word & 0x000f_ffff_ffff_f000
}

/// Caller-provided backing for the VT-d requester root-entry table.
///
/// A legacy root table is one 4 KiB page containing 256 128-bit entries, one
/// per PCI bus number in the remapping unit's segment. Each entry points to a
/// context table; it is not the root page of a DMA translation address space.
#[derive(Clone, Copy, Debug, PartialEq, Eq)]
pub struct VtdRootTableBacking {
    backing: DescriptorTableBacking<16>,
}

impl VtdRootTableBacking {
    pub closed spec fn spec_backing(self) -> DescriptorTableBacking<16> {
        self.backing
    }

    /// One page of entries, aligned to a page.
    pub open spec fn wf(self) -> bool {
        self.spec_backing().wf(0x1000) && self.spec_backing().spec_entry_count() == 256
    }

    pub fn new(phys: PhysAddrRange, virt: VirtAddrRange) -> (r: Result<Self, Error>)
        ensures
            match r {
                Ok(table) => {
                    &&& crate::ctrl::table_fault(phys, virt, 256, 16, 0x1000) is None
                    &&& table.wf()
                    &&& table.spec_backing().spec_phys() == phys
                    &&& table.spec_backing().spec_virt() == virt
                },
                Err(error) => crate::ctrl::table_fault(phys, virt, 256, 16, 0x1000) == Some(error),
            },
    {
        match DescriptorTableBacking::new_aligned(
            phys,
            virt,
            ROOT_ENTRY_COUNT,
            PageSize::Size4K.bytes(),
        ) {
            Ok(backing) => Ok(VtdRootTableBacking { backing }),
            Err(error) => Err(error),
        }
    }

    pub fn backing(self) -> (r: DescriptorTableBacking<16>)
        ensures
            r == self.spec_backing(),
    {
        self.backing
    }

    pub fn phys(self) -> (r: PhysAddrRange)
        ensures
            r == self.spec_backing().spec_phys(),
    {
        self.backing.phys()
    }

    pub fn virt(self) -> (r: VirtAddrRange)
        ensures
            r == self.spec_backing().spec_virt(),
    {
        self.backing.virt()
    }

    pub fn entry_count(self) -> (r: usize)
        ensures
            r == 256,
    {
        ROOT_ENTRY_COUNT
    }

    pub fn entry_bytes(self) -> (r: usize)
        ensures
            r == 16,
    {
        ROOT_ENTRY_BYTES
    }

    /// The entry of a bus: its number.
    pub fn bus_entry_index(bus: u8) -> (r: usize)
        ensures
            r == bus,
    {
        bus as usize
    }

    pub fn entry_vaddr(self, bus: u8) -> (r: Result<VirtAddr, Error>)
        ensures
            r == self.spec_backing().spec_entry_vaddr(bus as usize),
    {
        self.backing.entry_vaddr(Self::bus_entry_index(bus))
    }
}

/// Caller-provided backing for one VT-d context-entry table.
///
/// A context table is one 4 KiB page containing 256 128-bit entries, one per
/// device/function slot under a single PCI bus. Context entries select the
/// translation target for a PCI requester; they are not IOVA page-table leaves.
#[derive(Clone, Copy, Debug, PartialEq, Eq)]
pub struct VtdContextTableBacking {
    backing: DescriptorTableBacking<16>,
}

impl VtdContextTableBacking {
    pub closed spec fn spec_backing(self) -> DescriptorTableBacking<16> {
        self.backing
    }

    /// One page of entries, aligned to a page.
    pub open spec fn wf(self) -> bool {
        self.spec_backing().wf(0x1000) && self.spec_backing().spec_entry_count() == 256
    }

    pub fn new(phys: PhysAddrRange, virt: VirtAddrRange) -> (r: Result<Self, Error>)
        ensures
            match r {
                Ok(table) => {
                    &&& crate::ctrl::table_fault(phys, virt, 256, 16, 0x1000) is None
                    &&& table.wf()
                    &&& table.spec_backing().spec_phys() == phys
                    &&& table.spec_backing().spec_virt() == virt
                },
                Err(error) => crate::ctrl::table_fault(phys, virt, 256, 16, 0x1000) == Some(error),
            },
    {
        match DescriptorTableBacking::new_aligned(
            phys,
            virt,
            CONTEXT_ENTRY_COUNT,
            PageSize::Size4K.bytes(),
        ) {
            Ok(backing) => Ok(VtdContextTableBacking { backing }),
            Err(error) => Err(error),
        }
    }

    pub fn backing(self) -> (r: DescriptorTableBacking<16>)
        ensures
            r == self.spec_backing(),
    {
        self.backing
    }

    pub fn phys(self) -> (r: PhysAddrRange)
        ensures
            r == self.spec_backing().spec_phys(),
    {
        self.backing.phys()
    }

    pub fn virt(self) -> (r: VirtAddrRange)
        ensures
            r == self.spec_backing().spec_virt(),
    {
        self.backing.virt()
    }

    pub fn entry_count(self) -> (r: usize)
        ensures
            r == 256,
    {
        CONTEXT_ENTRY_COUNT
    }

    pub fn entry_bytes(self) -> (r: usize)
        ensures
            r == 16,
    {
        CONTEXT_ENTRY_BYTES
    }

    /// The entry of a requester: eight functions for each of 32 devices.
    pub open spec fn spec_client_index(client: PciDevice) -> usize {
        (client.spec_bdf().spec_device() * 8 + client.spec_bdf().spec_function()) as usize
    }

    pub fn client_entry_index(client: PciDevice) -> (r: usize)
        ensures
            r == Self::spec_client_index(client),
            r < 256,
    {
        client.device() as usize * 8 + client.function() as usize
    }

    pub fn client_entry_vaddr(self, client: PciDevice) -> (r: Result<VirtAddr, Error>)
        ensures
            r == self.spec_backing().spec_entry_vaddr(Self::spec_client_index(client)),
    {
        self.backing.entry_vaddr(Self::client_entry_index(client))
    }
}

/// VT-d root-entry descriptor for routing a PCI bus to a context table.
#[derive(Clone, Copy, Debug, PartialEq, Eq, Hash, Structural)]
pub struct VtdRootEntry {
    pub low: u64,
    pub high: u64,
}

impl VtdRootEntry {
    pub fn from_words(low: u64, high: u64) -> (r: Self)
        ensures
            r == (VtdRootEntry { low, high }),
    {
        VtdRootEntry { low, high }
    }

    pub fn disabled() -> (r: Self)
        ensures
            r == (VtdRootEntry { low: 0, high: 0 }),
    {
        VtdRootEntry { low: 0, high: 0 }
    }

    /// The entry that points at the context table at `root`.
    pub open spec fn pointing_at(root: PhysAddr) -> Self {
        VtdRootEntry { low: table_address(root.0 as u64) | 1, high: 0 }
    }

    pub fn from_context_table(table: VtdContextTableBacking) -> (r: Result<Self, Error>)
        ensures
            r == (if table.spec_backing().spec_phys().start.0 % 0x1000 == 0 {
                Ok(Self::pointing_at(table.spec_backing().spec_phys().start))
            } else {
                Err(Error::InvalidAddress)
            }),
    {
        let root = table.phys().start;
        proof {
            bits::lemma_page_is_pow2();
        }
        if !root.is_aligned(PageSize::Size4K.bytes()) {
            return Err(Error::InvalidAddress);
        }
        Ok(
            Self::from_words(
                ((root.as_usize() as u64) & TABLE_ADDR_MASK) | ROOT_ENTRY_PRESENT,
                0,
            ),
        )
    }

    pub fn low(self) -> (r: u64)
        ensures
            r == self.low,
    {
        self.low
    }

    pub fn high(self) -> (r: u64)
        ensures
            r == self.high,
    {
        self.high
    }

    pub open spec fn spec_present(self) -> bool {
        self.low & 1 != 0
    }

    pub fn present(self) -> (r: bool)
        ensures
            r == self.spec_present(),
    {
        (self.low & ROOT_ENTRY_PRESENT) != 0
    }

    pub open spec fn spec_context_table_root(self) -> Option<PhysAddr> {
        if self.spec_present() {
            Some(PhysAddr(table_address(self.low) as usize))
        } else {
            None
        }
    }

    pub fn context_table_root(self) -> (r: Option<PhysAddr>)
        ensures
            r == self.spec_context_table_root(),
    {
        if self.present() {
            Some(PhysAddr::from_usize((self.low & TABLE_ADDR_MASK) as usize))
        } else {
            None
        }
    }
}

impl Default for VtdRootEntry {
    fn default() -> (r: Self)
        ensures
            r == (VtdRootEntry { low: 0, high: 0 }),
    {
        Self::disabled()
    }
}

/// VT-d legacy context-entry descriptor for routing one requester.
///
/// A context entry either aborts the requester, lets it pass through when
/// hardware supports that mode, or points at a second-level DMA translation
/// root represented by [`VtdDomain`].
#[derive(Clone, Copy, Debug, PartialEq, Eq, Hash, Structural)]
pub struct VtdContextEntry {
    pub low: u64,
    pub high: u64,
}

impl VtdContextEntry {
    pub fn from_words(low: u64, high: u64) -> (r: Self)
        ensures
            r == (VtdContextEntry { low, high }),
    {
        VtdContextEntry { low, high }
    }

    pub fn disabled() -> (r: Self)
        ensures
            r == (VtdContextEntry { low: 0, high: 0 }),
    {
        VtdContextEntry { low: 0, high: 0 }
    }

    /// The entry that translates by the domain's table: the table address and
    /// the present bit in the low word, the table depth in bits `[2:0]` and the
    /// domain identity in bits `[23:8]` of the high word.
    pub open spec fn translating_by(domain: VtdDomain) -> Self {
        VtdContextEntry {
            low: table_address(domain.root.0 as u64) | 1,
            high: domain.width.spec_agaw() | ((domain.id.spec_id() as u64) << 8),
        }
    }

    pub open spec fn spec_from_domain(domain: VtdDomain) -> Result<Self, Error> {
        if domain.root.0 % 0x1000 == 0 {
            Ok(Self::translating_by(domain))
        } else {
            Err(Error::InvalidAddress)
        }
    }

    pub fn from_domain(domain: VtdDomain) -> (r: Result<Self, Error>)
        ensures
            r == Self::spec_from_domain(domain),
    {
        let root = domain.root();
        proof {
            bits::lemma_page_is_pow2();
        }
        if !root.is_aligned(PageSize::Size4K.bytes()) {
            return Err(Error::InvalidAddress);
        }
        Ok(
            Self::from_words(
                ((root.as_usize() as u64) & TABLE_ADDR_MASK) | CONTEXT_PRESENT,
                domain.width().agaw() | ((domain.id().id() as u64) << 8),
            ),
        )
    }

    /// The entry that lets its requester through: present, with translation
    /// type 2.
    pub open spec fn spec_pass_through() -> Self {
        VtdContextEntry { low: 0x09, high: 0 }
    }

    pub fn pass_through() -> (r: Self)
        ensures
            r == Self::spec_pass_through(),
    {
        Self::from_words(0x09, 0)
    }

    /// The entry that carries out a binding of a unit with the given
    /// capabilities.
    pub open spec fn spec_from_binding(
        binding: Binding<PciDevice, VtdDomain>,
        cap: VtdExtendedCapability,
    ) -> Result<Self, Error> {
        if binding.selector != BindingSelector::Default {
            Err(Error::FeatureUnavailable)
        } else {
            match binding.target {
                BindingTarget::Abort => Ok(VtdContextEntry { low: 0, high: 0 }),
                BindingTarget::PassThrough => if bits::bit_set(cap.0, 6) {
                    Ok(Self::spec_pass_through())
                } else {
                    Err(Error::FeatureUnavailable)
                },
                BindingTarget::Domain(domain) => Self::spec_from_domain(domain),
            }
        }
    }

    pub fn from_binding(
        binding: Binding<PciDevice, VtdDomain>,
        cap: VtdExtendedCapability,
    ) -> (r: Result<Self, Error>)
        ensures
            r == Self::spec_from_binding(binding, cap),
    {
        if binding.selector() != BindingSelector::Default {
            return Err(Error::FeatureUnavailable);
        }
        match binding.target() {
            BindingTarget::Abort => Ok(Self::disabled()),
            BindingTarget::PassThrough => {
                if cap.pass_through() {
                    Ok(Self::pass_through())
                } else {
                    Err(Error::FeatureUnavailable)
                }
            },
            BindingTarget::Domain(domain) => Self::from_domain(domain),
        }
    }

    pub fn low(self) -> (r: u64)
        ensures
            r == self.low,
    {
        self.low
    }

    pub fn high(self) -> (r: u64)
        ensures
            r == self.high,
    {
        self.high
    }

    pub open spec fn spec_present(self) -> bool {
        self.low & 1 != 0
    }

    pub fn present(self) -> (r: bool)
        ensures
            r == self.spec_present(),
    {
        (self.low & CONTEXT_PRESENT) != 0
    }

    /// Bits `[4:2]` of the low word.
    pub open spec fn spec_translation_type(self) -> u64 {
        bits::bit_field(self.low, 4, 2)
    }

    pub fn translation_type(self) -> (r: u8)
        ensures
            r == self.spec_translation_type(),
    {
        bits::field(self.low, 4, 2) as u8
    }

    /// Bits `[23:8]` of the high word.
    pub open spec fn spec_domain_id(self) -> u64 {
        bits::bit_field(self.high, 23, 8)
    }

    pub fn domain_id(self) -> (r: u16)
        ensures
            r == self.spec_domain_id(),
    {
        bits::field(self.high, 23, 8) as u16
    }

    /// The address width that bits `[2:0]` of the high word stand for.
    pub open spec fn spec_address_width_bits(self) -> u8 {
        let agaw = bits::bit_field(self.high, 2, 0);
        if agaw == 1 {
            39
        } else if agaw == 2 {
            48
        } else if agaw == 3 {
            57
        } else {
            30
        }
    }

    pub fn address_width_bits(self) -> (r: u8)
        ensures
            r == self.spec_address_width_bits(),
    {
        match bits::field(self.high, 2, 0) {
            1 => 39,
            2 => 48,
            3 => 57,
            _ => 30,
        }
    }

    pub open spec fn spec_page_table_root(self) -> Option<PhysAddr> {
        if self.spec_present() && self.spec_translation_type() == 0 {
            Some(PhysAddr(table_address(self.low) as usize))
        } else {
            None
        }
    }

    pub fn page_table_root(self) -> (r: Option<PhysAddr>)
        ensures
            r == self.spec_page_table_root(),
    {
        if self.present() && self.translation_type() == CONTEXT_TRANSLATION_TYPE_MULTI_LEVEL {
            Some(PhysAddr::from_usize((self.low & TABLE_ADDR_MASK) as usize))
        } else {
            None
        }
    }
}

impl Default for VtdContextEntry {
    fn default() -> (r: Self)
        ensures
            r == (VtdContextEntry { low: 0, high: 0 }),
    {
        Self::disabled()
    }
}

/// A root entry gives back the address of the context table that it points at,
/// and an entry that was cleared gives none.
pub proof fn law_root_entry_round_trip(root: PhysAddr)
    requires
        table_address(root.0 as u64) == root.0,
    ensures
        VtdRootEntry::pointing_at(root).spec_context_table_root() == Some(root),
        (VtdRootEntry { low: 0, high: 0 }).spec_context_table_root() is None,
{
    lemma_present_address(root.0 as u64);
}

proof fn lemma_present_address(addr: u64)
    by (bit_vector)
    requires
        table_address(addr) == addr,
    ensures
        table_address(addr | 1) == addr,
        (addr | 1) & 1 != 0,
        ((addr | 1) >> 2) & ((1u64 << 3) - 1) as u64 == 0,
        0u64 & 1 == 0,
{
}

/// A context entry gives back the table, the width and the identity of the
/// domain that it translates by.
pub proof fn law_context_entry_round_trip(domain: VtdDomain)
    requires
        table_address(domain.root.0 as u64) == domain.root.0,
        domain.id.wf(),
    ensures
        ({
            let entry = VtdContextEntry::translating_by(domain);
            &&& entry.spec_present()
            &&& entry.spec_translation_type() == 0
            &&& entry.spec_page_table_root() == Some(domain.root)
            &&& entry.spec_domain_id() == domain.id.spec_id()
            &&& entry.spec_address_width_bits() == 30 + 9 * domain.width.spec_agaw()
        }),
{
    lemma_present_address(domain.root.0 as u64);
    lemma_context_high(domain.width.spec_agaw(), domain.id.spec_id());
}

proof fn lemma_context_high(agaw: u64, id: u32)
    by (bit_vector)
    requires
        1 <= agaw <= 3,
        id & 0x0000_ffff == id,
    ensures
        ((agaw | ((id as u64) << 8)) >> 8) & ((1u64 << 16) - 1) as u64 == id,
        ((agaw | ((id as u64) << 8)) >> 0) & ((1u64 << 3) - 1) as u64 == agaw,
{
}

/// The three kinds of context entries are told apart: an aborting entry is not
/// present, and a pass-through entry is present and names no table.
pub proof fn law_context_entry_kinds()
    ensures
        !(VtdContextEntry { low: 0, high: 0 }).spec_present(),
        VtdContextEntry::spec_pass_through().spec_present(),
        VtdContextEntry::spec_pass_through().spec_translation_type() == 2,
        VtdContextEntry::spec_pass_through().spec_page_table_root() is None,
{
    assert(0u64 & 1 == 0 && 9u64 & 1 != 0 && (9u64 >> 2) & ((1u64 << 3) - 1) as u64 == 2)
        by (bit_vector);
}

/// The entry of the bus, with the words of `entry`.
pub open spec fn root_write(table: VtdRootTableBacking, bus: u8, entry: VtdRootEntry) -> Result<
    TableWrite,
    Error,
> {
    match table.spec_backing().spec_entry_vaddr(bus as usize) {
        Ok(vaddr) => Ok(TableWrite { vaddr, low: entry.low, high: entry.high }),
        Err(error) => Err(error),
    }
}

/// What is to be written to route a bus.
pub fn write_root_entry(table: VtdRootTableBacking, bus: u8, entry: VtdRootEntry) -> (r: Result<
    TableWrite,
    Error,
>)
    ensures
        r == root_write(table, bus, entry),
{
    match table.entry_vaddr(bus) {
        Ok(vaddr) => Ok(TableWrite { vaddr, low: entry.low(), high: entry.high() }),
        Err(error) => Err(error),
    }
}

/// What is to be written to route a requester.
pub fn write_context_entry(
    table: VtdContextTableBacking,
    client: PciDevice,
    entry: VtdContextEntry,
) -> (r: Result<TableWrite, Error>)
    ensures
        r == context_write(table, client, entry),
{
    match table.client_entry_vaddr(client) {
        Ok(vaddr) => Ok(TableWrite { vaddr, low: entry.low(), high: entry.high() }),
        Err(error) => Err(error),
    }
}

/// The entry of the requester, with the words of `entry`.
pub open spec fn context_write(
    table: VtdContextTableBacking,
    client: PciDevice,
    entry: VtdContextEntry,
) -> Result<TableWrite, Error> {
    match table.spec_backing().spec_entry_vaddr(
        VtdContextTableBacking::spec_client_index(client),
    ) {
        Ok(vaddr) => Ok(TableWrite { vaddr, low: entry.low, high: entry.high }),
        Err(error) => Err(error),
    }
}

/// Requesters of one bus have entries of their own.
pub proof fn law_requesters_have_their_own_entries(a: PciDevice, b: PciDevice)
    requires
        a.spec_bdf().spec_bus() == b.spec_bdf().spec_bus(),
        VtdContextTableBacking::spec_client_index(a)
            == VtdContextTableBacking::spec_client_index(b),
    ensures
        a.spec_bdf() == b.spec_bdf(),
{
    crate::firm::pcie::law_bdf_is_made_of_its_parts(a.spec_bdf());
    crate::firm::pcie::law_bdf_is_made_of_its_parts(b.spec_bdf());
}

} // verus!
