//! AMD-Vi page-table entries.

use vstd::prelude::*;

use crate::addr::{IoviAddr, PhysAddr};
use crate::bits;
use crate::memory::{
    address_fits, AccessFlags, CachePolicy, MemoryAttributes, PageSize, PageTableEntry,
    PageTableEntryKind, PagingMetaData,
};

verus! {

const PRESENT: u64 = 0x01;

const ADDR_MASK: u64 = 0x000f_ffff_ffff_f000;

const IO_READ: u64 = 0x2000_0000_0000_0000;

const IO_WRITE: u64 = 0x4000_0000_0000_0000;

/// The next-level number that marks a leaf above the last level.
pub const LARGE_LEAF_LEVEL: u8 = 7;

/// The next-level field of an entry, bits `[11:9]`, with the given number.
pub open spec fn level_field(level: u8) -> u64 {
    ((level as u64) << 9) & 0xe00
}

fn level_enc(level: u8) -> (r: u64)
    ensures
        r == level_field(level),
{
    ((level as u64) << 9) & 0xe00
}

/// The next-level number of an entry, bits `[11:9]`.
pub fn next_level(entry: u64) -> (r: u8)
    ensures
        r == bits::bit_field(entry, 11, 9),
        r <= 7,
{
    bits::field(entry, 11, 9) as u8
}

/// The level below, which level zero does not have.
pub open spec fn child_level(level: u8) -> u8 {
    if level == 0 {
        0
    } else {
        (level - 1) as u8
    }
}

fn child_of(level: u8) -> (r: u8)
    ensures
        r == child_level(level),
{
    if level == 0 {
        0
    } else {
        level - 1
    }
}

/// AMD-Vi IOPTE flags.
///
/// AMD-Vi v1 page-table leaves encode IO read/write permission in the high
/// bits. Cache and sharing attributes are carried for higher-level policy but
/// are not represented in this descriptor format.
#[derive(Clone, Copy, Debug, PartialEq, Eq, Structural)]
pub struct AmdViFlags {
    pub access: AccessFlags,
    pub attrs: MemoryAttributes,
}

impl AmdViFlags {
    pub fn new(access: AccessFlags) -> (r: Self)
        ensures
            r == (AmdViFlags { access, attrs: MemoryAttributes::spec_writeback() }),
    {
        AmdViFlags { access, attrs: MemoryAttributes::writeback() }
    }

    pub fn with_cache(self, cache: CachePolicy) -> (r: Self)
        ensures
            r == (AmdViFlags { attrs: MemoryAttributes { cache, ..self.attrs }, ..self }),
    {
        AmdViFlags { attrs: self.attrs.with_cache(cache), ..self }
    }

    pub fn with_attrs(self, attrs: MemoryAttributes) -> (r: Self)
        ensures
            r == (AmdViFlags { attrs, ..self }),
    {
        AmdViFlags { attrs, ..self }
    }

    fn to_leaf_bits(self, size: PageSize) -> (r: u64)
        ensures
            r == leaf_flag_bits(self.access.readable, self.access.writable, size !is Size4K),
    {
        let read: u64 = if self.access.contains(AccessFlags::read()) {
            IO_READ
        } else {
            0
        };
        let write: u64 = if self.access.contains(AccessFlags::write()) {
            IO_WRITE
        } else {
            0
        };
        let large: u64 = if size != PageSize::Size4K {
            level_enc(LARGE_LEAF_LEVEL)
        } else {
            0
        };
        PRESENT | read | write | large
    }

    fn from_bits(entry: u64) -> (r: Self)
        ensures
            r == decoded_flags(entry),
    {
        let readable = (entry & IO_READ) != 0;
        let writable = (entry & IO_WRITE) != 0;
        AmdViFlags {
            access: AccessFlags { readable, writable, executable: false, user_visible: false },
            attrs: MemoryAttributes::writeback(),
        }
    }
}

impl Default for AmdViFlags {
    fn default() -> (r: Self)
        ensures
            r == (AmdViFlags {
                access: AccessFlags::none(),
                attrs: MemoryAttributes::spec_writeback(),
            }),
    {
        AmdViFlags { access: AccessFlags::empty(), attrs: MemoryAttributes::writeback() }
    }
}

/// The flag bits of a leaf: bit 0 marks it as present, read is bit 61, write is
/// bit 62, and a leaf above the last level has the next-level number 7.
pub open spec fn leaf_flag_bits(read: bool, write: bool, large: bool) -> u64 {
    0x01u64 | (if read {
        0x2000_0000_0000_0000u64
    } else {
        0
    }) | (if write {
        0x4000_0000_0000_0000u64
    } else {
        0
    }) | (if large {
        level_field(7)
    } else {
        0
    })
}

/// The address field of an entry, bits `[51:12]`.
pub open spec fn entry_address(entry: u64) -> u64 {
    entry & 0x000f_ffff_ffff_f000
}

/// The flags that an entry gives: read is bit 61 and write is bit 62.
pub open spec fn decoded_flags(entry: u64) -> AmdViFlags {
    AmdViFlags {
        access: AccessFlags {
            readable: entry & 0x2000_0000_0000_0000 != 0,
            writable: entry & 0x4000_0000_0000_0000 != 0,
            executable: false,
            user_visible: false,
        },
        attrs: MemoryAttributes::spec_writeback(),
    }
}

/// An entry that points at a table one level below `level`: present, with both
/// permissions.
pub open spec fn table_bits(paddr: u64, level: u8) -> u64 {
    entry_address(paddr) | 0x01 | 0x2000_0000_0000_0000 | 0x4000_0000_0000_0000 | level_field(
        child_level(level),
    )
}

/// AMD-Vi IOMMU page-table entry.
#[derive(Clone, Copy, Debug, PartialEq, Eq, Structural)]
pub struct AmdViPte(pub u64);

impl AmdViPte {
    pub open spec fn present(self) -> bool {
        self.0 & 0x01 != 0
    }

    /// What the entry is in a table of `level`: at the last level a leaf, above
    /// it a table where it names the level below, and a leaf where it names no
    /// level or is marked as a large one.
    pub open spec fn kind_at(self, level: u8) -> PageTableEntryKind {
        let next = bits::bit_field(self.0, 11, 9);
        if !self.present() {
            PageTableEntryKind::Invalid
        } else if level == 1 {
            PageTableEntryKind::Leaf
        } else if next == child_level(level) {
            PageTableEntryKind::Table
        } else if next == 0 || next == 7 {
            PageTableEntryKind::Leaf
        } else {
            PageTableEntryKind::Invalid
        }
    }
}

impl Default for AmdViPte {
    fn default() -> (r: Self)
        ensures
            r == AmdViPte(0),
    {
        AmdViPte(0)
    }
}

impl PageTableEntry for AmdViPte {
    type Flags = AmdViFlags;

    open spec fn spec_bits(self) -> u64 {
        self.0
    }

    fn new_leaf(paddr: PhysAddr, flags: AmdViFlags, size: PageSize) -> (r: Self)
        ensures
            r.0 == entry_address(paddr.0 as u64) | leaf_flag_bits(
                flags.access.readable,
                flags.access.writable,
                size !is Size4K,
            ),
    {
        AmdViPte(((paddr.as_usize() as u64) & ADDR_MASK) | flags.to_leaf_bits(size))
    }

    fn new_table(paddr: PhysAddr, level: u8) -> (r: Self)
        ensures
            r.0 == table_bits(paddr.0 as u64, level),
    {
        AmdViPte(
            ((paddr.as_usize() as u64) & ADDR_MASK) | PRESENT | IO_READ | IO_WRITE | level_enc(
                child_of(level),
            ),
        )
    }

    fn paddr(&self) -> (r: PhysAddr)
        ensures
            r == PhysAddr(entry_address(self.0) as usize),
    {
        PhysAddr::from_usize((self.0 & ADDR_MASK) as usize)
    }

    fn flags(&self) -> (r: AmdViFlags)
        ensures
            r == decoded_flags(self.0),
    {
        AmdViFlags::from_bits(self.0)
    }

    fn is_present(&self) -> (r: bool)
        ensures
            r == self.present(),
    {
        (self.0 & PRESENT) != 0
    }

    fn entry_kind(&self, level: u8) -> (r: PageTableEntryKind)
        ensures
            r == self.kind_at(level),
    {
        if !self.is_present() {
            return PageTableEntryKind::Invalid;
        }
        let next: u8 = next_level(self.0);
        if level == 1 {
            PageTableEntryKind::Leaf
        } else if next == child_of(level) {
            PageTableEntryKind::Table
        } else if next == 0 || next == LARGE_LEAF_LEVEL {
            PageTableEntryKind::Leaf
        } else {
            PageTableEntryKind::Invalid
        }
    }

    fn clear(&mut self)
        ensures
            final(self).0 == 0,
    {
        self.0 = 0;
    }

    fn bits(&self) -> (r: u64) {
        self.0
    }

    fn from_bits(bits: u64) -> (r: Self) {
        AmdViPte(bits)
    }
}

/// A leaf gives back the page address and the permissions that it was made of,
/// and is a leaf at its level: a small one at level 1, a large one at each level
/// above it up to 7.
pub proof fn law_leaf_round_trip(paddr: u64, access: AccessFlags, level: u8, leaf: AmdViPte)
    requires
        entry_address(paddr) == paddr,
        1 <= level <= 7,
        leaf.0 == entry_address(paddr) | leaf_flag_bits(
            access.readable,
            access.writable,
            level != 1,
        ),
    ensures
        entry_address(leaf.0) == paddr,
        decoded_flags(leaf.0).access.readable == access.readable,
        decoded_flags(leaf.0).access.writable == access.writable,
        leaf.kind_at(level) == PageTableEntryKind::Leaf,
{
    lemma_leaf_bits(paddr, access.readable, access.writable, level != 1, leaf.0);
}

proof fn lemma_leaf_bits(paddr: u64, read: bool, write: bool, large: bool, entry: u64)
    by (bit_vector)
    requires
        entry_address(paddr) == paddr,
        entry == entry_address(paddr) | leaf_flag_bits(read, write, large),
    ensures
        entry_address(entry) == paddr,
        entry & 0x01 != 0,
        (entry & 0x2000_0000_0000_0000 != 0) == read,
        (entry & 0x4000_0000_0000_0000 != 0) == write,
        ((entry >> 9) & ((1u64 << 3) - 1) as u64) == (if large {
            7u64
        } else {
            0
        }),
{
}

/// A table entry gives back the table address that it was made of, and is a
/// table at its level.
pub proof fn law_table_round_trip(paddr: u64, level: u8, entry: AmdViPte)
    requires
        entry_address(paddr) == paddr,
        2 <= level <= 8,
        entry.0 == table_bits(paddr, level),
    ensures
        entry_address(entry.0) == paddr,
        entry.kind_at(level) == PageTableEntryKind::Table,
{
    let word = entry.0;
    let child = child_level(level);
    assert(entry_address(word) == paddr && word & 0x01 != 0 && ((word >> 9) & ((1u64 << 3) - 1)
        as u64) == child) by (bit_vector)
        requires
            entry_address(paddr) == paddr,
            child <= 7,
            word == entry_address(paddr) | 0x01 | 0x2000_0000_0000_0000 | 0x4000_0000_0000_0000
                | level_field(child),
    ;
}

/// Geometry of three-level AMD-Vi tables.
#[derive(Clone, Copy, Debug)]
pub struct AmdViMeta39;

/// Geometry of four-level AMD-Vi tables.
#[derive(Clone, Copy, Debug)]
pub struct AmdViMeta48;

/// Geometry of five-level AMD-Vi tables.
#[derive(Clone, Copy, Debug)]
pub struct AmdViMeta57;

/// Leaves are of 4 KiB at level 1, of 2 MiB at level 2 and of 1 GiB at level 3.
pub open spec fn leaf_level(level: u8, size: PageSize) -> bool {
    ||| level == 1 && size is Size4K
    ||| level == 2 && size is Size2M
    ||| level == 3 && size is Size1G
}

fn supports_leaf(level: u8, size: PageSize) -> (r: bool)
    ensures
        r == leaf_level(level, size),
{
    match size {
        PageSize::Size4K => level == 1,
        PageSize::Size2M => level == 2,
        PageSize::Size1G => level == 3,
        _ => false,
    }
}

impl PagingMetaData for AmdViMeta39 {
    const LEVELS: usize = 3;

    const PA_MAX_BITS: usize = 52;

    const VA_MAX_BITS: usize = 39;

    const INDEX_BITS: u32 = 9;

    type VirtAddr = IoviAddr<u64>;

    open spec fn spec_va_bits() -> usize {
        39
    }

    open spec fn spec_base_page_size() -> PageSize {
        PageSize::Size4K
    }

    open spec fn spec_level_shift(level: u8) -> int {
        12 + 9 * (level - 1)
    }

    open spec fn spec_level_index_bits(level: u8) -> u32 {
        9
    }

    open spec fn spec_level_supports_leaf(level: u8, size: PageSize) -> bool {
        leaf_level(level, size)
    }

    open spec fn spec_levels() -> u8 {
        3
    }

    proof fn law_leaf_spans_its_level(level: u8, size: PageSize) {
        vstd::arithmetic::power2::lemma2_to64();
        vstd::arithmetic::power2::lemma2_to64_rest();
    }

    proof fn law_levels_partition_the_address(level: u8) {
        vstd::arithmetic::power2::lemma2_to64();
    }

    fn base_page_size() -> (r: PageSize) {
        PageSize::Size4K
    }

    fn table_frame_size() -> (r: PageSize) {
        PageSize::Size4K
    }

    fn level_shift(level: u8) -> (r: u32) {
        12 + ((level as u32) - 1) * 9
    }

    fn level_index_bits(level: u8) -> (r: u32) {
        9
    }

    fn level_supports_leaf(level: u8, size: PageSize) -> (r: bool) {
        supports_leaf(level, size)
    }

    fn vaddr_is_valid(vaddr: IoviAddr<u64>) -> (r: bool) {
        address_fits(vaddr.as_usize(), 39)
    }
}

impl PagingMetaData for AmdViMeta48 {
    const LEVELS: usize = 4;

    const PA_MAX_BITS: usize = 52;

    const VA_MAX_BITS: usize = 48;

    const INDEX_BITS: u32 = 9;

    type VirtAddr = IoviAddr<u64>;

    open spec fn spec_va_bits() -> usize {
        48
    }

    open spec fn spec_base_page_size() -> PageSize {
        PageSize::Size4K
    }

    open spec fn spec_level_shift(level: u8) -> int {
        12 + 9 * (level - 1)
    }

    open spec fn spec_level_index_bits(level: u8) -> u32 {
        9
    }

    open spec fn spec_level_supports_leaf(level: u8, size: PageSize) -> bool {
        leaf_level(level, size)
    }

    open spec fn spec_levels() -> u8 {
        4
    }

    proof fn law_leaf_spans_its_level(level: u8, size: PageSize) {
        vstd::arithmetic::power2::lemma2_to64();
        vstd::arithmetic::power2::lemma2_to64_rest();
    }

    proof fn law_levels_partition_the_address(level: u8) {
        vstd::arithmetic::power2::lemma2_to64();
    }

    fn base_page_size() -> (r: PageSize) {
        PageSize::Size4K
    }

    fn table_frame_size() -> (r: PageSize) {
        PageSize::Size4K
    }

    fn level_shift(level: u8) -> (r: u32) {
        12 + ((level as u32) - 1) * 9
    }

    fn level_index_bits(level: u8) -> (r: u32) {
        9
    }

    fn level_supports_leaf(level: u8, size: PageSize) -> (r: bool) {
        supports_leaf(level, size)
    }

    fn vaddr_is_valid(vaddr: IoviAddr<u64>) -> (r: bool) {
        address_fits(vaddr.as_usize(), 48)
    }
}

impl PagingMetaData for AmdViMeta57 {
    const LEVELS: usize = 5;

    const PA_MAX_BITS: usize = 52;

    const VA_MAX_BITS: usize = 57;

    const INDEX_BITS: u32 = 9;

    type VirtAddr = IoviAddr<u64>;

    open spec fn spec_va_bits() -> usize {
        57
    }

    open spec fn spec_base_page_size() -> PageSize {
        PageSize::Size4K
    }

    open spec fn spec_level_shift(level: u8) -> int {
        12 + 9 * (level - 1)
    }

    open spec fn spec_level_index_bits(level: u8) -> u32 {
        9
    }

    open spec fn spec_level_supports_leaf(level: u8, size: PageSize) -> bool {
        leaf_level(level, size)
    }

    open spec fn spec_levels() -> u8 {
        5
    }

    proof fn law_leaf_spans_its_level(level: u8, size: PageSize) {
        vstd::arithmetic::power2::lemma2_to64();
        vstd::arithmetic::power2::lemma2_to64_rest();
    }

    proof fn law_levels_partition_the_address(level: u8) {
        vstd::arithmetic::power2::lemma2_to64();
    }

    fn base_page_size() -> (r: PageSize) {
        PageSize::Size4K
    }

    fn table_frame_size() -> (r: PageSize) {
        PageSize::Size4K
    }

    fn level_shift(level: u8) -> (r: u32) {
        12 + ((level as u32) - 1) * 9
    }

    fn level_index_bits(level: u8) -> (r: u32) {
        9
    }

    fn level_supports_leaf(level: u8, size: PageSize) -> (r: bool) {
        supports_leaf(level, size)
    }

    fn vaddr_is_valid(vaddr: IoviAddr<u64>) -> (r: bool) {
        address_fits(vaddr.as_usize(), 57)
    }
}

} // verus!
