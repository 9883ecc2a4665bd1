//! Intel VT-d second-level page-table entries.

use vstd::prelude::*;

use crate::addr::{IoviAddr, PhysAddr};
use crate::memory::{
    address_fits, AccessFlags, CachePolicy, MemoryAttributes, PageSize, PageTableEntry, PageTableEntryKind,
    PagingMetaData,
};

verus! {

const ADDR_MASK: u64 = 0x000f_ffff_ffff_f000;

const READ: u64 = 0x01;

const WRITE: u64 = 0x02;

const SUPER_PAGE: u64 = 0x80;

const PRESENT: u64 = 0x03;

/// Width of the addresses that a second-level table translates.
#[derive(Clone, Copy, Debug, PartialEq, Eq, Hash, Structural)]
pub enum VtdSecondLevelAddressWidth {
    Bits39,
    Bits48,
    Bits57,
}

impl VtdSecondLevelAddressWidth {
    /// The adjusted guest address width, which numbers the table depths.
    pub open spec fn spec_agaw(self) -> u64 {
        match self {
            VtdSecondLevelAddressWidth::Bits39 => 1,
            VtdSecondLevelAddressWidth::Bits48 => 2,
            VtdSecondLevelAddressWidth::Bits57 => 3,
        }
    }

    /// The number that context entries hold for the width.
    pub fn agaw(self) -> (r: u64)
        ensures
            r == self.spec_agaw(),
    {
        match self {
            VtdSecondLevelAddressWidth::Bits39 => 1,
            VtdSecondLevelAddressWidth::Bits48 => 2,
            VtdSecondLevelAddressWidth::Bits57 => 3,
        }
    }

    /// The bit that stands for the width in the capability register's field of
    /// supported widths.
    pub fn sagaw_bit(self) -> (r: u8)
        ensures
            r == 1u8 << self.spec_agaw(),
    {
        assert(1u8 << 1u64 == 2 && 1u8 << 2u64 == 4 && 1u8 << 3u64 == 8) by (bit_vector);
        match self {
            VtdSecondLevelAddressWidth::Bits39 => 0x02,
            VtdSecondLevelAddressWidth::Bits48 => 0x04,
            VtdSecondLevelAddressWidth::Bits57 => 0x08,
        }
    }
}

/// Intel VT-d second-level PTE flags.
///
/// VT-d second-level leaves encode read/write permission directly. Cache,
/// shareability, coherency, and execute intent remain carried in the flags
/// value for API symmetry, but this descriptor format does not encode them.
#[derive(Clone, Copy, Debug, PartialEq, Eq, Structural)]
pub struct VtdSecondLevelFlags {
    pub access: AccessFlags,
    pub attrs: MemoryAttributes,
}

impl VtdSecondLevelFlags {
    pub fn new(access: AccessFlags) -> (r: Self)
        ensures
            r == (VtdSecondLevelFlags { access, attrs: MemoryAttributes::spec_writeback() }),
    {
        VtdSecondLevelFlags { access, attrs: MemoryAttributes::writeback() }
    }

    pub fn with_cache(self, cache: CachePolicy) -> (r: Self)
        ensures
            r == (VtdSecondLevelFlags { attrs: MemoryAttributes { cache, ..self.attrs }, ..self }),
    {
        VtdSecondLevelFlags { attrs: self.attrs.with_cache(cache), ..self }
    }

    pub fn with_attrs(self, attrs: MemoryAttributes) -> (r: Self)
        ensures
            r == (VtdSecondLevelFlags { attrs, ..self }),
    {
        VtdSecondLevelFlags { attrs, ..self }
    }

    fn to_leaf_bits(self, size: PageSize) -> (r: u64)
        ensures
            r == leaf_flag_bits(self.access.readable, self.access.writable, size !is Size4K),
    {
        let read: u64 = if self.access.contains(AccessFlags::read()) {
            READ
        } else {
            0
        };
        let write: u64 = if self.access.contains(AccessFlags::write()) {
            WRITE
        } else {
            0
        };
        let superpage: u64 = if size != PageSize::Size4K {
            SUPER_PAGE
        } else {
            0
        };
        read | write | superpage
    }

    fn from_bits(bits: u64) -> (r: Self)
        ensures
            r == decoded_flags(bits),
    {
        let readable = (bits & READ) != 0;
        let writable = (bits & WRITE) != 0;
        VtdSecondLevelFlags {
            access: AccessFlags { readable, writable, executable: false, user_visible: false },
            attrs: MemoryAttributes::writeback(),
        }
    }
}

impl Default for VtdSecondLevelFlags {
    fn default() -> (r: Self)
        ensures
            r == (VtdSecondLevelFlags {
                access: AccessFlags::none(),
                attrs: MemoryAttributes::spec_writeback(),
            }),
    {
        VtdSecondLevelFlags { access: AccessFlags::empty(), attrs: MemoryAttributes::writeback() }
    }
}

/// The flag bits of a leaf: read is bit 0, write is bit 1, and bit 7 marks a
/// leaf above the last level.
pub open spec fn leaf_flag_bits(read: bool, write: bool, superpage: bool) -> u64 {
    (if read {
        0x01u64
    } else {
        0
    }) | (if write {
        0x02u64
    } else {
        0
    }) | (if superpage {
        0x80u64
    } else {
        0
    })
}

/// The address field of an entry, bits `[51:12]`.
pub open spec fn entry_address(bits: u64) -> u64 {
    bits & 0x000f_ffff_ffff_f000
}

/// The flags that an entry gives: read is bit 0 and write is bit 1.
pub open spec fn decoded_flags(bits: u64) -> VtdSecondLevelFlags {
    VtdSecondLevelFlags {
        access: AccessFlags {
            readable: bits & 0x01 != 0,
            writable: bits & 0x02 != 0,
            executable: false,
            user_visible: false,
        },
        attrs: MemoryAttributes::spec_writeback(),
    }
}

/// Intel VT-d second-level page-table entry.
#[derive(Clone, Copy, Debug, PartialEq, Eq, Structural)]
pub struct VtdSecondLevelPte(pub u64);

impl VtdSecondLevelPte {
    /// Whether the hardware reads the entry: one of the permissions is given.
    pub open spec fn present(self) -> bool {
        self.0 & 0x03 != 0
    }

    /// What the entry is in a table of `level`.
    pub open spec fn kind_at(self, level: u8) -> PageTableEntryKind {
        if !self.present() {
            PageTableEntryKind::Invalid
        } else if level == 1 || self.0 & 0x80 != 0 {
            PageTableEntryKind::Leaf
        } else {
            PageTableEntryKind::Table
        }
    }
}

impl Default for VtdSecondLevelPte {
    fn default() -> (r: Self)
        ensures
            r == VtdSecondLevelPte(0),
    {
        VtdSecondLevelPte(0)
    }
}

impl PageTableEntry for VtdSecondLevelPte {
    type Flags = VtdSecondLevelFlags;

    open spec fn spec_bits(self) -> u64 {
        self.0
    }

    fn new_leaf(paddr: PhysAddr, flags: VtdSecondLevelFlags, size: PageSize) -> (r: Self)
        ensures
            r.0 == entry_address(paddr.0 as u64) | leaf_flag_bits(
                flags.access.readable,
                flags.access.writable,
                size !is Size4K,
            ),
    {
        VtdSecondLevelPte(((paddr.as_usize() as u64) & ADDR_MASK) | flags.to_leaf_bits(size))
    }

    fn new_table(paddr: PhysAddr, _level: u8) -> (r: Self)
        ensures
            r.0 == entry_address(paddr.0 as u64) | 0x03,
    {
        VtdSecondLevelPte(((paddr.as_usize() as u64) & ADDR_MASK) | PRESENT)
    }

    fn paddr(&self) -> (r: PhysAddr)
        ensures
            r == PhysAddr(entry_address(self.0) as usize),
    {
        PhysAddr::from_usize((self.0 & ADDR_MASK) as usize)
    }

    fn flags(&self) -> (r: VtdSecondLevelFlags)
        ensures
            r == decoded_flags(self.0),
    {
        VtdSecondLevelFlags::from_bits(self.0)
    }

    fn is_present(&self) -> (r: bool)
        ensures
            r == self.present(),
    {
        (self.0 & PRESENT) != 0
    }

    fn entry_kind(&self, level: u8) -> (r: PageTableEntryKind)
        ensures
            r == self.kind_at(level),
    {
        if !self.is_present() {
            PageTableEntryKind::Invalid
        } else if level == 1 || (self.0 & SUPER_PAGE) != 0 {
            PageTableEntryKind::Leaf
        } else {
            PageTableEntryKind::Table
        }
    }

    fn clear(&mut self)
        ensures
            final(self).0 == 0,
    {
        self.0 = 0;
    }

    fn bits(&self) -> (r: u64) {
        self.0
    }

    fn from_bits(bits: u64) -> (r: Self) {
        VtdSecondLevelPte(bits)
    }
}

/// A leaf gives back the page address, and the read and write permission, that
/// it was made of. It is a leaf at its level where it gives any permission, and
/// invalid at every level where it gives none.
pub proof fn law_leaf_round_trip(
    paddr: u64,
    access: AccessFlags,
    superpage: bool,
    level: u8,
    leaf: VtdSecondLevelPte,
)
    requires
        entry_address(paddr) == paddr,
        superpage == (level != 1),
        leaf.0 == entry_address(paddr) | leaf_flag_bits(
            access.readable,
            access.writable,
            superpage,
        ),
    ensures
        entry_address(leaf.0) == paddr,
        decoded_flags(leaf.0).access.readable == access.readable,
        decoded_flags(leaf.0).access.writable == access.writable,
        leaf.kind_at(level) == (if access.readable || access.writable {
            PageTableEntryKind::Leaf
        } else {
            PageTableEntryKind::Invalid
        }),
{
    lemma_leaf_bits(paddr, access.readable, access.writable, superpage, leaf.0);
}

proof fn lemma_leaf_bits(paddr: u64, read: bool, write: bool, superpage: bool, bits: u64)
    by (bit_vector)
    requires
        entry_address(paddr) == paddr,
        bits == entry_address(paddr) | leaf_flag_bits(read, write, superpage),
    ensures
        entry_address(bits) == paddr,
        (bits & 0x01 != 0) == read,
        (bits & 0x02 != 0) == write,
        (bits & 0x03 != 0) == (read || write),
        (bits & 0x80 != 0) == superpage,
{
}

/// A table entry gives back the table address that it was made of, and is a
/// table at every level above the last.
pub proof fn law_table_round_trip(paddr: u64, level: u8, entry: VtdSecondLevelPte)
    requires
        entry_address(paddr) == paddr,
        level != 1,
        entry.0 == entry_address(paddr) | 0x03,
    ensures
        entry_address(entry.0) == paddr,
        entry.kind_at(level) == PageTableEntryKind::Table,
{
    let bits = entry.0;
    assert(entry_address(bits) == paddr && bits & 0x03 != 0 && bits & 0x80 == 0) by (bit_vector)
        requires
            entry_address(paddr) == paddr,
            bits == entry_address(paddr) | 0x03,
    ;
}

/// Geometry of three-level second-level tables.
#[derive(Clone, Copy, Debug)]
pub struct VtdSecondLevelMeta39;

/// Geometry of four-level second-level tables.
#[derive(Clone, Copy, Debug)]
pub struct VtdSecondLevelMeta48;

/// Geometry of five-level second-level tables.
#[derive(Clone, Copy, Debug)]
pub struct VtdSecondLevelMeta57;

/// Leaves are of 4 KiB at level 1, of 2 MiB at level 2 and of 1 GiB at level 3.
pub open spec fn leaf_level(level: u8, size: PageSize) -> bool {
    ||| level == 1 && size is Size4K
    ||| level == 2 && size is Size2M
    ||| level == 3 && size is Size1G
}

fn supports_leaf(level: u8, size: PageSize) -> (r: bool)
    ensures
        r == leaf_level(level, size),
{
    match size {
        PageSize::Size4K => level == 1,
        PageSize::Size2M => level == 2,
        PageSize::Size1G => level == 3,
        _ => false,
    }
}

impl PagingMetaData for VtdSecondLevelMeta39 {
    const LEVELS: usize = 3;

    const PA_MAX_BITS: usize = 52;

    const VA_MAX_BITS: usize = 39;

    const INDEX_BITS: u32 = 9;

    type VirtAddr = IoviAddr<u64>;

    open spec fn spec_va_bits() -> usize {
        39
    }

    open spec fn spec_base_page_size() -> PageSize {
        PageSize::Size4K
    }

    open spec fn spec_level_shift(level: u8) -> int {
        12 + 9 * (level - 1)
    }

    open spec fn spec_level_index_bits(level: u8) -> u32 {
        9
    }

    open spec fn spec_level_supports_leaf(level: u8, size: PageSize) -> bool {
        leaf_level(level, size)
    }

    open spec fn spec_levels() -> u8 {
        3
    }

    proof fn law_leaf_spans_its_level(level: u8, size: PageSize) {
        vstd::arithmetic::power2::lemma2_to64();
        vstd::arithmetic::power2::lemma2_to64_rest();
    }

    proof fn law_levels_partition_the_address(level: u8) {
        vstd::arithmetic::power2::lemma2_to64();
    }

    fn base_page_size() -> (r: PageSize) {
        PageSize::Size4K
    }

    fn table_frame_size() -> (r: PageSize) {
        PageSize::Size4K
    }

    fn level_shift(level: u8) -> (r: u32) {
        12 + ((level as u32) - 1) * 9
    }

    fn level_index_bits(level: u8) -> (r: u32) {
        9
    }

    fn level_supports_leaf(level: u8, size: PageSize) -> (r: bool) {
        supports_leaf(level, size)
    }

    fn vaddr_is_valid(vaddr: IoviAddr<u64>) -> (r: bool) {
        address_fits(vaddr.as_usize(), 39)
    }
}

impl PagingMetaData for VtdSecondLevelMeta48 {
    const LEVELS: usize = 4;

    const PA_MAX_BITS: usize = 52;

    const VA_MAX_BITS: usize = 48;

    const INDEX_BITS: u32 = 9;

    type VirtAddr = IoviAddr<u64>;

    open spec fn spec_va_bits() -> usize {
        48
    }

    open spec fn spec_base_page_size() -> PageSize {
        PageSize::Size4K
    }

    open spec fn spec_level_shift(level: u8) -> int {
        12 + 9 * (level - 1)
    }

    open spec fn spec_level_index_bits(level: u8) -> u32 {
        9
    }

    open spec fn spec_level_supports_leaf(level: u8, size: PageSize) -> bool {
        leaf_level(level, size)
    }

    open spec fn spec_levels() -> u8 {
        4
    }

    proof fn law_leaf_spans_its_level(level: u8, size: PageSize) {
        vstd::arithmetic::power2::lemma2_to64();
        vstd::arithmetic::power2::lemma2_to64_rest();
    }

    proof fn law_levels_partition_the_address(level: u8) {
        vstd::arithmetic::power2::lemma2_to64();
    }

    fn base_page_size() -> (r: PageSize) {
        PageSize::Size4K
    }

    fn table_frame_size() -> (r: PageSize) {
        PageSize::Size4K
    }

    fn level_shift(level: u8) -> (r: u32) {
        12 + ((level as u32) - 1) * 9
    }

    fn level_index_bits(level: u8) -> (r: u32) {
        9
    }

    fn level_supports_leaf(level: u8, size: PageSize) -> (r: bool) {
        supports_leaf(level, size)
    }

    fn vaddr_is_valid(vaddr: IoviAddr<u64>) -> (r: bool) {
        address_fits(vaddr.as_usize(), 48)
    }
}

impl PagingMetaData for VtdSecondLevelMeta57 {
    const LEVELS: usize = 5;

    const PA_MAX_BITS: usize = 52;

    const VA_MAX_BITS: usize = 57;

    const INDEX_BITS: u32 = 9;

    type VirtAddr = IoviAddr<u64>;

    open spec fn spec_va_bits() -> usize {
        57
    }

    open spec fn spec_base_page_size() -> PageSize {
        PageSize::Size4K
    }

    open spec fn spec_level_shift(level: u8) -> int {
        12 + 9 * (level - 1)
    }

    open spec fn spec_level_index_bits(level: u8) -> u32 {
        9
    }

    open spec fn spec_level_supports_leaf(level: u8, size: PageSize) -> bool {
        leaf_level(level, size)
    }

    open spec fn spec_levels() -> u8 {
        5
    }

    proof fn law_leaf_spans_its_level(level: u8, size: PageSize) {
        vstd::arithmetic::power2::lemma2_to64();
        vstd::arithmetic::power2::lemma2_to64_rest();
    }

    proof fn law_levels_partition_the_address(level: u8) {
        vstd::arithmetic::power2::lemma2_to64();
    }

    fn base_page_size() -> (r: PageSize) {
        PageSize::Size4K
    }

    fn table_frame_size() -> (r: PageSize) {
        PageSize::Size4K
    }

    fn level_shift(level: u8) -> (r: u32) {
        12 + ((level as u32) - 1) * 9
    }

    fn level_index_bits(level: u8) -> (r: u32) {
        9
    }

    fn level_supports_leaf(level: u8, size: PageSize) -> (r: bool) {
        supports_leaf(level, size)
    }

    fn vaddr_is_valid(vaddr: IoviAddr<u64>) -> (r: bool) {
        address_fits(vaddr.as_usize(), 57)
    }
}

} // verus!
