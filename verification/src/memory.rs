//! Paging vocabulary shared by CPU and device page tables.

use core::ops::{BitAnd, BitOr};
use vstd::prelude::*;
use vstd::std_specs::ops::{BitAndSpecImpl, BitOrSpecImpl};

use crate::addr::{Address, PhysAddr};

verus! {

/// Failure modes of page-table operations.
#[derive(Clone, Copy, Debug, PartialEq, Eq, Structural)]
pub enum PagingError {
    /// An address or a size is not a multiple of its granule.
    NotAligned,
    /// An address does not fit in the address space that holds it.
    AddressOutOfRange,
    /// A mapping request does not have the shape that it claims.
    InvalidMappingShape,
}

/// Shared result type of page-table operations.
pub type PagingResult<T = ()> = Result<T, PagingError>;

/// Sizes of page-table leaves.
#[derive(Clone, Copy, Debug, PartialEq, Eq, PartialOrd, Ord, Hash, Structural)]
pub enum PageSize {
    Size4K,
    Size16K,
    Size64K,
    Size2M,
    Size32M,
    Size512M,
    Size1G,
    Size64G,
    Size512G,
    Size4T,
}

impl PageSize {
    /// The number of bytes in a leaf.
    pub open spec fn spec_bytes(self) -> u64 {
        match self {
            PageSize::Size4K => 0x1000,
            PageSize::Size16K => 0x4000,
            PageSize::Size64K => 0x1_0000,
            PageSize::Size2M => 0x20_0000,
            PageSize::Size32M => 0x200_0000,
            PageSize::Size512M => 0x2000_0000,
            PageSize::Size1G => 0x4000_0000,
            PageSize::Size64G => 0x10_0000_0000,
            PageSize::Size512G => 0x80_0000_0000,
            PageSize::Size4T => 0x400_0000_0000,
        }
    }

    /// The number of bytes in a leaf as a 64-bit number.
    pub fn bytes_u64(self) -> (r: u64)
        ensures
            r == self.spec_bytes(),
            r >= 0x1000,
    {
        match self {
            PageSize::Size4K => 0x1000,
            PageSize::Size16K => 0x4000,
            PageSize::Size64K => 0x1_0000,
            PageSize::Size2M => 0x20_0000,
            PageSize::Size32M => 0x200_0000,
            PageSize::Size512M => 0x2000_0000,
            PageSize::Size1G => 0x4000_0000,
            PageSize::Size64G => 0x10_0000_0000,
            PageSize::Size512G => 0x80_0000_0000,
            PageSize::Size4T => 0x400_0000_0000,
        }
    }

    /// The number of bytes in a leaf, which has to be a number of the address
    /// space.
    pub fn bytes(self) -> (r: usize)
        requires
            self.spec_bytes() <= usize::MAX,
        ensures
            r == self.spec_bytes(),
            r >= 0x1000,
    {
        self.bytes_u64() as usize
    }

    /// The leaf size of the given number of bytes.
    pub fn from_bytes(bytes: usize) -> (r: Option<Self>)
        ensures
            match r {
                Some(size) => size.spec_bytes() == bytes,
                None => forall|size: PageSize| (#[trigger] size.spec_bytes()) != bytes,
            },
    {
        match bytes as u64 {
            0x1000 => Some(PageSize::Size4K),
            0x4000 => Some(PageSize::Size16K),
            0x1_0000 => Some(PageSize::Size64K),
            0x20_0000 => Some(PageSize::Size2M),
            0x200_0000 => Some(PageSize::Size32M),
            0x2000_0000 => Some(PageSize::Size512M),
            0x4000_0000 => Some(PageSize::Size1G),
            0x10_0000_0000 => Some(PageSize::Size64G),
            0x80_0000_0000 => Some(PageSize::Size512G),
            0x400_0000_0000 => Some(PageSize::Size4T),
            _ => None,
        }
    }
}

/// A leaf size is determined by its number of bytes.
pub proof fn law_page_size_is_determined_by_bytes(a: PageSize, b: PageSize)
    requires
        a.spec_bytes() == b.spec_bytes(),
    ensures
        a == b,
{
}

/// Access permissions of one mapping.
#[derive(Clone, Copy, Debug, PartialEq, Eq, Hash, Structural)]
pub struct AccessFlags {
    pub readable: bool,
    pub writable: bool,
    pub executable: bool,
    pub user_visible: bool,
}

impl AccessFlags {
    /// The permissions that are given by both.
    pub open spec fn spec_and(self, other: Self) -> Self {
        AccessFlags {
            readable: self.readable && other.readable,
            writable: self.writable && other.writable,
            executable: self.executable && other.executable,
            user_visible: self.user_visible && other.user_visible,
        }
    }

    /// The permissions that are given by either.
    pub open spec fn spec_or(self, other: Self) -> Self {
        AccessFlags {
            readable: self.readable || other.readable,
            writable: self.writable || other.writable,
            executable: self.executable || other.executable,
            user_visible: self.user_visible || other.user_visible,
        }
    }

    pub open spec fn none() -> Self {
        AccessFlags { readable: false, writable: false, executable: false, user_visible: false }
    }

    pub fn empty() -> (r: Self)
        ensures
            r == Self::none(),
    {
        AccessFlags { readable: false, writable: false, executable: false, user_visible: false }
    }

    pub fn read() -> (r: Self)
        ensures
            r == (AccessFlags { readable: true, ..Self::none() }),
    {
        AccessFlags { readable: true, ..Self::empty() }
    }

    pub fn write() -> (r: Self)
        ensures
            r == (AccessFlags { writable: true, ..Self::none() }),
    {
        AccessFlags { writable: true, ..Self::empty() }
    }

    pub fn execute() -> (r: Self)
        ensures
            r == (AccessFlags { executable: true, ..Self::none() }),
    {
        AccessFlags { executable: true, ..Self::empty() }
    }

    pub fn user() -> (r: Self)
        ensures
            r == (AccessFlags { user_visible: true, ..Self::none() }),
    {
        AccessFlags { user_visible: true, ..Self::empty() }
    }

    /// Whether all permissions of `other` are given.
    pub fn contains(self, other: Self) -> (r: bool)
        ensures
            r == (self.spec_and(other) == other),
    {
        (self.readable || !other.readable) && (self.writable || !other.writable) && (self.executable
            || !other.executable) && (self.user_visible || !other.user_visible)
    }
}

impl Default for AccessFlags {
    fn default() -> (r: Self)
        ensures
            r == Self::none(),
    {
        Self::empty()
    }
}

impl BitOr<AccessFlags> for AccessFlags {
    type Output = AccessFlags;

    fn bitor(self, rhs: AccessFlags) -> (r: AccessFlags) {
        AccessFlags {
            readable: self.readable || rhs.readable,
            writable: self.writable || rhs.writable,
            executable: self.executable || rhs.executable,
            user_visible: self.user_visible || rhs.user_visible,
        }
    }
}

impl BitOrSpecImpl<AccessFlags> for AccessFlags {
    open spec fn obeys_bitor_spec() -> bool {
        true
    }

    open spec fn bitor_req(self, rhs: AccessFlags) -> bool {
        true
    }

    open spec fn bitor_spec(self, rhs: AccessFlags) -> AccessFlags {
        self.spec_or(rhs)
    }
}

impl BitAnd<AccessFlags> for AccessFlags {
    type Output = AccessFlags;

    fn bitand(self, rhs: AccessFlags) -> (r: AccessFlags) {
        AccessFlags {
            readable: self.readable && rhs.readable,
            writable: self.writable && rhs.writable,
            executable: self.executable && rhs.executable,
            user_visible: self.user_visible && rhs.user_visible,
        }
    }
}

impl BitAndSpecImpl<AccessFlags> for AccessFlags {
    open spec fn obeys_bitand_spec() -> bool {
        true
    }

    open spec fn bitand_req(self, rhs: AccessFlags) -> bool {
        true
    }

    open spec fn bitand_spec(self, rhs: AccessFlags) -> AccessFlags {
        self.spec_and(rhs)
    }
}

/// Cache policy of one mapping.
#[derive(Clone, Copy, Debug, PartialEq, Eq, Hash, Structural)]
pub enum CachePolicy {
    WriteBack,
    WriteThrough,
    WriteCombining,
    Uncached,
    Device,
}

/// Memory attributes of one mapping.
#[derive(Clone, Copy, Debug, PartialEq, Eq, Hash, Structural)]
pub struct MemoryAttributes {
    pub cache: CachePolicy,
}

impl MemoryAttributes {
    pub open spec fn spec_writeback() -> Self {
        MemoryAttributes { cache: CachePolicy::WriteBack }
    }

    pub fn writeback() -> (r: Self)
        ensures
            r == Self::spec_writeback(),
    {
        MemoryAttributes { cache: CachePolicy::WriteBack }
    }

    pub fn with_cache(self, cache: CachePolicy) -> (r: Self)
        ensures
            r == (MemoryAttributes { cache, ..self }),
    {
        MemoryAttributes { cache, ..self }
    }
}

impl Default for MemoryAttributes {
    fn default() -> (r: Self)
        ensures
            r == Self::spec_writeback(),
    {
        Self::writeback()
    }
}

/// What a page-table entry is at its level.
#[derive(Clone, Copy, Debug, PartialEq, Eq, Structural)]
pub enum PageTableEntryKind {
    Invalid,
    Table,
    Leaf,
}

/// Format of the entries of one kind of page table.
pub trait PageTableEntry: Copy + Sized {
    type Flags: Copy + core::fmt::Debug + PartialEq + Eq;

    /// The entry as the hardware reads it.
    spec fn spec_bits(self) -> u64;

    fn new_leaf(paddr: PhysAddr, flags: Self::Flags, size: PageSize) -> Self;

    fn new_table(paddr: PhysAddr, level: u8) -> Self;

    fn paddr(&self) -> PhysAddr;

    fn flags(&self) -> Self::Flags;

    fn is_present(&self) -> bool;

    fn entry_kind(&self, level: u8) -> PageTableEntryKind;

    fn clear(&mut self);

    fn bits(&self) -> (r: u64)
        ensures
            r == self.spec_bits(),
    ;

    fn from_bits(bits: u64) -> (r: Self)
        ensures
            r.spec_bits() == bits,
    ;
}

/// Whether a number fits in `bits` bits.
pub open spec fn fits_in_bits(value: usize, bits: usize) -> bool {
    bits >= 64 || value >> bits == 0
}

/// Whether a number fits in `bits` bits.
pub fn address_fits(value: usize, bits: usize) -> (r: bool)
    ensures
        r == fits_in_bits(value, bits),
{
    if bits >= 64 {
        return true;
    }
    if bits >= usize::BITS as usize {
        assert(forall|v: usize, b: usize| b >= usize::BITS ==> #[trigger] (v >> b) == 0)
            by (bit_vector);
        return true;
    }
    value >> bits == 0
}

/// Geometry of one kind of page table. Levels count from 1, whose entries are
/// leaves of the base page size.
pub trait PagingMetaData {
    const LEVELS: usize;

    const PA_MAX_BITS: usize;

    const VA_MAX_BITS: usize;

    const INDEX_BITS: u32;

    type VirtAddr: Address;

    /// The number of address bits that the tables translate.
    spec fn spec_va_bits() -> usize;

    /// The leaf size of level 1.
    spec fn spec_base_page_size() -> PageSize;

    /// The lowest address bit that indexes a table of `level`.
    spec fn spec_level_shift(level: u8) -> int;

    /// The number of address bits that index a table of `level`.
    spec fn spec_level_index_bits(level: u8) -> u32;

    /// Whether entries of `level` may be leaves of `size`.
    spec fn spec_level_supports_leaf(level: u8, size: PageSize) -> bool;

    /// The number of levels.
    spec fn spec_levels() -> u8;

    /// A leaf spans exactly the addresses that the levels below its own index.
    proof fn law_leaf_spans_its_level(level: u8, size: PageSize)
        requires
            level >= 1,
            Self::spec_level_supports_leaf(level, size),
        ensures
            size.spec_bytes() == vstd::arithmetic::power2::pow2(
                Self::spec_level_shift(level) as nat,
            ),
    ;

    /// Level 1 indexes the bits above the base page, each level the bits above
    /// those of the level below, and the last level the top bits of the address.
    proof fn law_levels_partition_the_address(level: u8)
        requires
            1 <= level <= Self::spec_levels(),
        ensures
            vstd::arithmetic::power2::pow2(Self::spec_level_shift(1) as nat)
                == Self::spec_base_page_size().spec_bytes(),
            level < Self::spec_levels() ==> Self::spec_level_shift((level + 1) as u8)
                == Self::spec_level_shift(level) + Self::spec_level_index_bits(level),
            level == Self::spec_levels() ==> Self::spec_va_bits() == Self::spec_level_shift(level)
                + Self::spec_level_index_bits(level),
    ;

    fn base_page_size() -> (r: PageSize)
        ensures
            r == Self::spec_base_page_size(),
    ;

    fn table_frame_size() -> (r: PageSize)
        ensures
            r == Self::spec_base_page_size(),
    ;

    fn level_shift(level: u8) -> (r: u32)
        requires
            level >= 1,
        ensures
            r == Self::spec_level_shift(level),
    ;

    fn level_index_bits(level: u8) -> (r: u32)
        ensures
            r == Self::spec_level_index_bits(level),
    ;

    fn level_supports_leaf(level: u8, size: PageSize) -> (r: bool)
        ensures
            r == Self::spec_level_supports_leaf(level, size),
    ;

    /// Whether the address space of the tables holds `vaddr`.
    fn vaddr_is_valid(vaddr: Self::VirtAddr) -> (r: bool)
        ensures
            r == fits_in_bits(vaddr.value(), Self::spec_va_bits()),
    ;
}

/// What two accesses allow together is what each of them allows, and what one
/// of them or the other allows is what at least one does.
pub proof fn law_access_flags_meet_and_join(a: AccessFlags, b: AccessFlags)
    ensures
        a.spec_and(b).readable <==> a.readable && b.readable,
        a.spec_and(b).writable <==> a.writable && b.writable,
        a.spec_and(b).executable <==> a.executable && b.executable,
        a.spec_and(b).user_visible <==> a.user_visible && b.user_visible,
        a.spec_or(b).readable <==> a.readable || b.readable,
        a.spec_or(b).writable <==> a.writable || b.writable,
        a.spec_or(b).executable <==> a.executable || b.executable,
        a.spec_or(b).user_visible <==> a.user_visible || b.user_visible,
        a.spec_and(AccessFlags::none()) == AccessFlags::none(),
        a.spec_or(AccessFlags::none()) == a,
{
}

} // verus!
