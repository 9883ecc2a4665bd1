//! What the entries of translation tables mean, bit by bit, and how the levels of
//! the tables divide an address.

use vstd::arithmetic::power2;
use vstd::prelude::*;

use crate::arch::aarch64::smmu3::{
    SmmuVmsaMeta16K48, SmmuVmsaMeta16K52, SmmuVmsaMeta4K48, SmmuVmsaMeta4K52, SmmuVmsaMeta64K48,
    SmmuVmsaMeta64K52,
};
use crate::arch::riscv64::riscv::paging::{RvIommuMeta39, RvIommuMeta48, RvIommuMeta57};
use crate::arch::x86_64::amd::paging::{AmdViMeta39, AmdViMeta48, AmdViMeta57, AmdViPte};
use crate::arch::x86_64::intel::paging::{
    VtdSecondLevelMeta39, VtdSecondLevelMeta48, VtdSecondLevelMeta57, VtdSecondLevelPte,
};
use crate::memory::{PageSize, PageTableEntryKind, PagingMetaData};

verus! {

/// Bit `index` of a word is one.
pub open spec fn bit_on(word: u64, index: u64) -> bool {
    (word >> index) & 1 == 1
}

/// A leaf of a second-level table has whether it can be read in bit 0, whether
/// it can be written in bit 1, whether it is larger than 4 KiB in bit 7, its
/// address in bits `[51:12]`, and no other bit; a pointer to a table has bits 0
/// and 1 and the address.
pub proof fn law_second_level_entries_hold_their_parts(
    paddr: u64,
    read: bool,
    write: bool,
    large: bool,
    index: u64,
)
    requires
        index < 64,
    ensures
        bit_on(
            crate::arch::x86_64::intel::paging::entry_address(paddr)
                | crate::arch::x86_64::intel::paging::leaf_flag_bits(read, write, large),
            index,
        ) == (if index == 0 {
            read
        } else if index == 1 {
            write
        } else if index == 7 {
            large
        } else {
            12 <= index < 52 && bit_on(paddr, index)
        }),
        bit_on(crate::arch::x86_64::intel::paging::entry_address(paddr) | 0x03, index) == (index
            <= 1 || 12 <= index < 52 && bit_on(paddr, index)),
        bit_on(crate::arch::x86_64::intel::paging::entry_address(paddr), index) == (12 <= index
            < 52 && bit_on(paddr, index)),
{
    let r = if read {
        0x01u64
    } else {
        0
    };
    let w = if write {
        0x02u64
    } else {
        0
    };
    let l = if large {
        0x80u64
    } else {
        0
    };
    assert({
        let address = paddr & 0x000f_ffff_ffff_f000;
        let here = ((paddr >> index) & 1) == 1;
        &&& (((address | (r | w | l)) >> index) & 1 == 1) == (if index == 0 {
            r == 1
        } else if index == 1 {
            w == 2
        } else if index == 7 {
            l == 0x80
        } else {
            12 <= index && index < 52 && here
        })
        &&& (((address | 0x03) >> index) & 1 == 1) == (index <= 1 || (12 <= index && index < 52
            && here))
        &&& ((address >> index) & 1 == 1) == (12 <= index && index < 52 && here)
    }) by (bit_vector)
        requires
            index < 64,
            r == 0 || r == 1,
            w == 0 || w == 2,
            l == 0 || l == 0x80,
    ;
}

/// An entry of a second-level table is absent where bits 0 and 1 are off, else a
/// leaf at level 1 or where bit 7 is on, else a pointer to a table; it can be
/// read and written as bits 0 and 1 say, and neither executed nor seen by user
/// code.
pub proof fn law_second_level_entry_is_read_from_its_bits(entry: VtdSecondLevelPte, level: u8)
    ensures
        entry.present() == (bit_on(entry.0, 0) || bit_on(entry.0, 1)),
        entry.kind_at(level) == (if !bit_on(entry.0, 0) && !bit_on(entry.0, 1) {
            PageTableEntryKind::Invalid
        } else if level == 1 || bit_on(entry.0, 7) {
            PageTableEntryKind::Leaf
        } else {
            PageTableEntryKind::Table
        }),
        ({
            let access = crate::arch::x86_64::intel::paging::decoded_flags(entry.0).access;
            &&& access.readable == bit_on(entry.0, 0)
            &&& access.writable == bit_on(entry.0, 1)
            &&& !access.executable
            &&& !access.user_visible
        }),
{
    let bits = entry.0;
    assert((bits & 0x01 != 0) == ((bits >> 0) & 1 == 1) && (bits & 0x02 != 0) == ((bits >> 1) & 1
        == 1) && (bits & 0x80 != 0) == ((bits >> 7) & 1 == 1) && (bits & 0x03 != 0) == (((bits >> 0)
        & 1 == 1) || ((bits >> 1) & 1 == 1))) by (bit_vector);
}

/// A leaf of an AMD-Vi table is present in bit 0, has whether it can be read in
/// bit 61 and written in bit 62, bits `[11:9]` all on where it is larger than 4
/// KiB and off where it is not, its address in bits `[51:12]`, and no other bit.
/// A pointer to a table has bits 0, 61 and 62, the address, and in bits `[11:9]`
/// the level below its own.
pub proof fn law_amd_entries_hold_their_parts(
    paddr: u64,
    read: bool,
    write: bool,
    large: bool,
    level: u8,
    index: u64,
)
    requires
        index < 64,
        2 <= level <= 8,
    ensures
        bit_on(
            crate::arch::x86_64::amd::paging::entry_address(paddr)
                | crate::arch::x86_64::amd::paging::leaf_flag_bits(read, write, large),
            index,
        ) == (if index == 0 {
            true
        } else if index == 61 {
            read
        } else if index == 62 {
            write
        } else if 9 <= index <= 11 {
            large
        } else {
            12 <= index < 52 && bit_on(paddr, index)
        }),
        ({
            let table = crate::arch::x86_64::amd::paging::table_bits(paddr, level);
            &&& (table >> 9) & 7 == level - 1
            &&& !(9 <= index <= 11) ==> bit_on(table, index) == (index == 0 || index == 61 || index
                == 62 || 12 <= index < 52 && bit_on(paddr, index))
        }),
        bit_on(crate::arch::x86_64::amd::paging::entry_address(paddr), index) == (12 <= index < 52
            && bit_on(paddr, index)),
{
    let r = if read {
        0x2000_0000_0000_0000u64
    } else {
        0
    };
    let w = if write {
        0x4000_0000_0000_0000u64
    } else {
        0
    };
    let l = if large {
        (7u64 << 9) & 0xe00
    } else {
        0
    };
    let child = (level - 1) as u8;
    assert({
        let address = paddr & 0x000f_ffff_ffff_f000;
        let here = ((paddr >> index) & 1) == 1;
        let table = address | 0x01 | 0x2000_0000_0000_0000 | 0x4000_0000_0000_0000 | (((child
            as u64) << 9) & 0xe00);
        &&& (((address | (0x01u64 | r | w | l)) >> index) & 1 == 1) == (if index == 0 {
            true
        } else if index == 61 {
            r != 0
        } else if index == 62 {
            w != 0
        } else if 9 <= index && index <= 11 {
            l != 0
        } else {
            12 <= index && index < 52 && here
        })
        &&& (table >> 9) & 7 == child
        &&& (index < 9 || index > 11) ==> (((table >> index) & 1 == 1) == (index == 0 || index == 61
            || index == 62 || (12 <= index && index < 52 && here)))
        &&& ((address >> index) & 1 == 1) == (12 <= index && index < 52 && here)
    }) by (bit_vector)
        requires
            index < 64,
            child <= 7,
            r == 0 || r == 0x2000_0000_0000_0000,
            w == 0 || w == 0x4000_0000_0000_0000,
            l == 0 || l == (7u64 << 9) & 0xe00,
    ;
    assert((7u64 << 9) & 0xe00 != 0) by (bit_vector);
}

/// An entry of an AMD-Vi table is absent where bit 0 is off and a leaf at level
/// 1. Above, it points to a table where bits `[11:9]` hold the level below, is a
/// leaf where they hold zero or seven, and is else not valid. It can be read and
/// written as bits 61 and 62 say, and neither executed nor seen by user code.
pub proof fn law_amd_entry_is_read_from_its_bits(entry: AmdViPte, level: u8)
    requires
        level >= 1,
    ensures
        entry.present() == bit_on(entry.0, 0),
        entry.kind_at(level) == (if !bit_on(entry.0, 0) {
            PageTableEntryKind::Invalid
        } else if level == 1 {
            PageTableEntryKind::Leaf
        } else if (entry.0 >> 9) & 7 == level - 1 {
            PageTableEntryKind::Table
        } else if (entry.0 >> 9) & 7 == 0 || (entry.0 >> 9) & 7 == 7 {
            PageTableEntryKind::Leaf
        } else {
            PageTableEntryKind::Invalid
        }),
        ({
            let access = crate::arch::x86_64::amd::paging::decoded_flags(entry.0).access;
            &&& access.readable == bit_on(entry.0, 61)
            &&& access.writable == bit_on(entry.0, 62)
            &&& !access.executable
            &&& !access.user_visible
        }),
{
    let word = entry.0;
    assert((word & 0x01 != 0) == ((word >> 0) & 1 == 1) && (word & 0x2000_0000_0000_0000 != 0) == ((
    word >> 61) & 1 == 1) && (word & 0x4000_0000_0000_0000 != 0) == ((word >> 62) & 1 == 1) && ((
    1u64 << 3) - 1) as u64 == 7) by (bit_vector);
}

/// The levels of a kind of table divide an address of `bits` bits: the lowest
/// one starts behind the offset in a base page, each starts where the one below
/// ends, and the topmost one ends at the address's top. A level can hold a leaf
/// of a size exactly where what lies below the level is an offset in the leaf,
/// up to level `largest`.
pub open spec fn divides_addresses<M: PagingMetaData>(bits: int, largest: int) -> bool {
    &&& M::spec_va_bits() == bits
    &&& M::spec_base_page_size().spec_bytes() == power2::pow2(M::spec_level_shift(1) as nat)
    &&& forall|level: u8|
        1 <= level < M::spec_levels() ==> #[trigger] M::spec_level_shift(level)
            + M::spec_level_index_bits(level) == M::spec_level_shift((level + 1) as u8)
    &&& M::spec_level_shift(M::spec_levels()) + M::spec_level_index_bits(M::spec_levels()) == bits
    &&& forall|level: u8, size: PageSize|
        1 <= level <= M::spec_levels() ==> #[trigger] M::spec_level_supports_leaf(level, size) == (
        level <= largest && size.spec_bytes() == power2::pow2(M::spec_level_shift(level) as nat))
}

/// The second-level tables have three to five levels, for 39, 48 and 57 bits,
/// with leaves in the lower three.
pub proof fn law_second_level_tables_divide_addresses()
    ensures
        divides_addresses::<VtdSecondLevelMeta39>(39, 3),
        divides_addresses::<VtdSecondLevelMeta48>(48, 3),
        divides_addresses::<VtdSecondLevelMeta57>(57, 3),
{
    lemma_powers();
}

/// The AMD-Vi tables have three to five levels, for 39, 48 and 57 bits, with
/// leaves in the lower three.
pub proof fn law_amd_tables_divide_addresses()
    ensures
        divides_addresses::<AmdViMeta39>(39, 3),
        divides_addresses::<AmdViMeta48>(48, 3),
        divides_addresses::<AmdViMeta57>(57, 3),
{
    lemma_powers();
}

/// The RISC-V tables have three to five levels, for 39, 48 and 57 bits, with
/// leaves in the lower four.
pub proof fn law_riscv_tables_divide_addresses()
    ensures
        divides_addresses::<RvIommuMeta39>(39, 3),
        divides_addresses::<RvIommuMeta48>(48, 4),
        divides_addresses::<RvIommuMeta57>(57, 4),
{
    lemma_powers();
}

/// The SMMU tables divide 48 and 52 bits for base pages of 4, 16 and 64 KiB,
/// with leaves in the lower three levels.
pub proof fn law_smmu_tables_divide_addresses()
    ensures
        divides_addresses::<SmmuVmsaMeta4K48>(48, 3),
        divides_addresses::<SmmuVmsaMeta4K52>(52, 3),
        divides_addresses::<SmmuVmsaMeta16K48>(48, 3),
        divides_addresses::<SmmuVmsaMeta16K52>(52, 3),
        divides_addresses::<SmmuVmsaMeta64K48>(48, 3),
        divides_addresses::<SmmuVmsaMeta64K52>(52, 3),
{
    lemma_powers();
}

proof fn lemma_powers()
    ensures
        power2::pow2(12) == 0x1000,
        power2::pow2(14) == 0x4000,
        power2::pow2(16) == 0x1_0000,
        power2::pow2(21) == 0x20_0000,
        power2::pow2(25) == 0x200_0000,
        power2::pow2(29) == 0x2000_0000,
        power2::pow2(30) == 0x4000_0000,
        power2::pow2(36) == 0x10_0000_0000,
        power2::pow2(39) == 0x80_0000_0000,
        power2::pow2(42) == 0x400_0000_0000,
{
    power2::lemma2_to64();
    power2::lemma2_to64_rest();
}

} // verus!
