//! ARM SMMUv3 VMSA page-table geometry.

use vstd::prelude::*;

use crate::addr::IoviAddr;
use crate::memory::{address_fits, PageSize, PagingMetaData};

verus! {

/// With 4 KiB pages, leaves are of 4 KiB, 2 MiB and 1 GiB.
pub open spec fn leaf_level_4k(level: u8, size: PageSize) -> bool {
    ||| level == 1 && size is Size4K
    ||| level == 2 && size is Size2M
    ||| level == 3 && size is Size1G
}

fn supports_leaf_4k(level: u8, size: PageSize) -> (r: bool)
    ensures
        r == leaf_level_4k(level, size),
{
    match size {
        PageSize::Size4K => level == 1,
        PageSize::Size2M => level == 2,
        PageSize::Size1G => level == 3,
        _ => false,
    }
}

/// With 16 KiB pages, leaves are of 16 KiB, 32 MiB and 64 GiB.
pub open spec fn leaf_level_16k(level: u8, size: PageSize) -> bool {
    ||| level == 1 && size is Size16K
    ||| level == 2 && size is Size32M
    ||| level == 3 && size is Size64G
}

fn supports_leaf_16k(level: u8, size: PageSize) -> (r: bool)
    ensures
        r == leaf_level_16k(level, size),
{
    match size {
        PageSize::Size16K => level == 1,
        PageSize::Size32M => level == 2,
        PageSize::Size64G => level == 3,
        _ => false,
    }
}

/// With 64 KiB pages, leaves are of 64 KiB, 512 MiB and 4 TiB.
pub open spec fn leaf_level_64k(level: u8, size: PageSize) -> bool {
    ||| level == 1 && size is Size64K
    ||| level == 2 && size is Size512M
    ||| level == 3 && size is Size4T
}

fn supports_leaf_64k(level: u8, size: PageSize) -> (r: bool)
    ensures
        r == leaf_level_64k(level, size),
{
    match size {
        PageSize::Size64K => level == 1,
        PageSize::Size512M => level == 2,
        PageSize::Size4T => level == 3,
        _ => false,
    }
}

/// Geometry of tables with 4 KiB pages and 48-bit addresses.
#[derive(Clone, Copy, Debug)]
pub struct SmmuVmsaMeta4K48;

/// Geometry of tables with 4 KiB pages and 52-bit addresses.
#[derive(Clone, Copy, Debug)]
pub struct SmmuVmsaMeta4K52;

/// Geometry of tables with 16 KiB pages and 48-bit addresses.
#[derive(Clone, Copy, Debug)]
pub struct SmmuVmsaMeta16K48;

/// Geometry of tables with 16 KiB pages and 52-bit addresses.
#[derive(Clone, Copy, Debug)]
pub struct SmmuVmsaMeta16K52;

/// Geometry of tables with 64 KiB pages and 48-bit addresses.
#[derive(Clone, Copy, Debug)]
pub struct SmmuVmsaMeta64K48;

/// Geometry of tables with 64 KiB pages and 52-bit addresses.
#[derive(Clone, Copy, Debug)]
pub struct SmmuVmsaMeta64K52;

impl PagingMetaData for SmmuVmsaMeta4K48 {
    const LEVELS: usize = 4;

    const PA_MAX_BITS: usize = 48;

    const VA_MAX_BITS: usize = 48;

    const INDEX_BITS: u32 = 9;

    type VirtAddr = IoviAddr<u64>;

    open spec fn spec_va_bits() -> usize {
        48
    }

    open spec fn spec_base_page_size() -> PageSize {
        PageSize::Size4K
    }

    open spec fn spec_level_shift(level: u8) -> int {
        12 + 9 * (level - 1)
    }

    open spec fn spec_level_index_bits(level: u8) -> u32 {
        9
    }

    open spec fn spec_level_supports_leaf(level: u8, size: PageSize) -> bool {
        leaf_level_4k(level, size)
    }

    open spec fn spec_levels() -> u8 {
        4
    }

    proof fn law_leaf_spans_its_level(level: u8, size: PageSize) {
        vstd::arithmetic::power2::lemma2_to64();
        vstd::arithmetic::power2::lemma2_to64_rest();
    }

    proof fn law_levels_partition_the_address(level: u8) {
        vstd::arithmetic::power2::lemma2_to64();
    }

    fn base_page_size() -> (r: PageSize) {
        PageSize::Size4K
    }

    fn table_frame_size() -> (r: PageSize) {
        PageSize::Size4K
    }

    fn level_shift(level: u8) -> (r: u32) {
        12 + ((level as u32) - 1) * 9
    }

    fn level_index_bits(level: u8) -> (r: u32) {
        9
    }

    fn level_supports_leaf(level: u8, size: PageSize) -> (r: bool) {
        supports_leaf_4k(level, size)
    }

    fn vaddr_is_valid(vaddr: IoviAddr<u64>) -> (r: bool) {
        address_fits(vaddr.as_usize(), 48)
    }
}

impl PagingMetaData for SmmuVmsaMeta4K52 {
    const LEVELS: usize = 5;

    const PA_MAX_BITS: usize = 52;

    const VA_MAX_BITS: usize = 52;

    const INDEX_BITS: u32 = 9;

    type VirtAddr = IoviAddr<u64>;

    open spec fn spec_va_bits() -> usize {
        52
    }

    open spec fn spec_base_page_size() -> PageSize {
        PageSize::Size4K
    }

    open spec fn spec_level_shift(level: u8) -> int {
        12 + 9 * (level - 1)
    }

    open spec fn spec_level_index_bits(level: u8) -> u32 {
        if level == 5 {
            4
        } else {
            9
        }
    }

    open spec fn spec_level_supports_leaf(level: u8, size: PageSize) -> bool {
        leaf_level_4k(level, size)
    }

    open spec fn spec_levels() -> u8 {
        5
    }

    proof fn law_leaf_spans_its_level(level: u8, size: PageSize) {
        vstd::arithmetic::power2::lemma2_to64();
        vstd::arithmetic::power2::lemma2_to64_rest();
    }

    proof fn law_levels_partition_the_address(level: u8) {
        vstd::arithmetic::power2::lemma2_to64();
    }

    fn base_page_size() -> (r: PageSize) {
        PageSize::Size4K
    }

    fn table_frame_size() -> (r: PageSize) {
        PageSize::Size4K
    }

    fn level_shift(level: u8) -> (r: u32) {
        12 + ((level as u32) - 1) * 9
    }

    fn level_index_bits(level: u8) -> (r: u32) {
        if level == 5 {
            4
        } else {
            9
        }
    }

    fn level_supports_leaf(level: u8, size: PageSize) -> (r: bool) {
        supports_leaf_4k(level, size)
    }

    fn vaddr_is_valid(vaddr: IoviAddr<u64>) -> (r: bool) {
        address_fits(vaddr.as_usize(), 52)
    }
}

impl PagingMetaData for SmmuVmsaMeta16K48 {
    const LEVELS: usize = 4;

    const PA_MAX_BITS: usize = 48;

    const VA_MAX_BITS: usize = 48;

    const INDEX_BITS: u32 = 11;

    type VirtAddr = IoviAddr<u64>;

    open spec fn spec_va_bits() -> usize {
        48
    }

    open spec fn spec_base_page_size() -> PageSize {
        PageSize::Size16K
    }

    open spec fn spec_level_shift(level: u8) -> int {
        14 + 11 * (level - 1)
    }

    open spec fn spec_level_index_bits(level: u8) -> u32 {
        if level == 4 {
            1
        } else {
            11
        }
    }

    open spec fn spec_level_supports_leaf(level: u8, size: PageSize) -> bool {
        leaf_level_16k(level, size)
    }

    open spec fn spec_levels() -> u8 {
        4
    }

    proof fn law_leaf_spans_its_level(level: u8, size: PageSize) {
        vstd::arithmetic::power2::lemma2_to64();
        vstd::arithmetic::power2::lemma2_to64_rest();
    }

    proof fn law_levels_partition_the_address(level: u8) {
        vstd::arithmetic::power2::lemma2_to64();
    }

    fn base_page_size() -> (r: PageSize) {
        PageSize::Size16K
    }

    fn table_frame_size() -> (r: PageSize) {
        PageSize::Size16K
    }

    fn level_shift(level: u8) -> (r: u32) {
        14 + ((level as u32) - 1) * 11
    }

    fn level_index_bits(level: u8) -> (r: u32) {
        if level == 4 {
            1
        } else {
            11
        }
    }

    fn level_supports_leaf(level: u8, size: PageSize) -> (r: bool) {
        supports_leaf_16k(level, size)
    }

    fn vaddr_is_valid(vaddr: IoviAddr<u64>) -> (r: bool) {
        address_fits(vaddr.as_usize(), 48)
    }
}

impl PagingMetaData for SmmuVmsaMeta16K52 {
    const LEVELS: usize = 4;

    const PA_MAX_BITS: usize = 52;

    const VA_MAX_BITS: usize = 52;

    const INDEX_BITS: u32 = 11;

    type VirtAddr = IoviAddr<u64>;

    open spec fn spec_va_bits() -> usize {
        52
    }

    open spec fn spec_base_page_size() -> PageSize {
        PageSize::Size16K
    }

    open spec fn spec_level_shift(level: u8) -> int {
        14 + 11 * (level - 1)
    }

    open spec fn spec_level_index_bits(level: u8) -> u32 {
        if level == 4 {
            5
        } else {
            11
        }
    }

    open spec fn spec_level_supports_leaf(level: u8, size: PageSize) -> bool {
        leaf_level_16k(level, size)
    }

    open spec fn spec_levels() -> u8 {
        4
    }

    proof fn law_leaf_spans_its_level(level: u8, size: PageSize) {
        vstd::arithmetic::power2::lemma2_to64();
        vstd::arithmetic::power2::lemma2_to64_rest();
    }

    proof fn law_levels_partition_the_address(level: u8) {
        vstd::arithmetic::power2::lemma2_to64();
    }

    fn base_page_size() -> (r: PageSize) {
        PageSize::Size16K
    }

    fn table_frame_size() -> (r: PageSize) {
        PageSize::Size16K
    }

    fn level_shift(level: u8) -> (r: u32) {
        14 + ((level as u32) - 1) * 11
    }

    fn level_index_bits(level: u8) -> (r: u32) {
        if level == 4 {
            5
        } else {
            11
        }
    }

    fn level_supports_leaf(level: u8, size: PageSize) -> (r: bool) {
        supports_leaf_16k(level, size)
    }

    fn vaddr_is_valid(vaddr: IoviAddr<u64>) -> (r: bool) {
        address_fits(vaddr.as_usize(), 52)
    }
}

impl PagingMetaData for SmmuVmsaMeta64K48 {
    const LEVELS: usize = 3;

    const PA_MAX_BITS: usize = 48;

    const VA_MAX_BITS: usize = 48;

    const INDEX_BITS: u32 = 13;

    type VirtAddr = IoviAddr<u64>;

    open spec fn spec_va_bits() -> usize {
        48
    }

    open spec fn spec_base_page_size() -> PageSize {
        PageSize::Size64K
    }

    open spec fn spec_level_shift(level: u8) -> int {
        16 + 13 * (level - 1)
    }

    open spec fn spec_level_index_bits(level: u8) -> u32 {
        if level == 3 {
            6
        } else {
            13
        }
    }

    open spec fn spec_level_supports_leaf(level: u8, size: PageSize) -> bool {
        leaf_level_64k(level, size)
    }

    open spec fn spec_levels() -> u8 {
        3
    }

    proof fn law_leaf_spans_its_level(level: u8, size: PageSize) {
        vstd::arithmetic::power2::lemma2_to64();
        vstd::arithmetic::power2::lemma2_to64_rest();
    }

    proof fn law_levels_partition_the_address(level: u8) {
        vstd::arithmetic::power2::lemma2_to64();
    }

    fn base_page_size() -> (r: PageSize) {
        PageSize::Size64K
    }

    fn table_frame_size() -> (r: PageSize) {
        PageSize::Size64K
    }

    fn level_shift(level: u8) -> (r: u32) {
        16 + ((level as u32) - 1) * 13
    }

    fn level_index_bits(level: u8) -> (r: u32) {
        if level == 3 {
            6
        } else {
            13
        }
    }

    fn level_supports_leaf(level: u8, size: PageSize) -> (r: bool) {
        supports_leaf_64k(level, size)
    }

    fn vaddr_is_valid(vaddr: IoviAddr<u64>) -> (r: bool) {
        address_fits(vaddr.as_usize(), 48)
    }
}

impl PagingMetaData for SmmuVmsaMeta64K52 {
    const LEVELS: usize = 3;

    const PA_MAX_BITS: usize = 52;

    const VA_MAX_BITS: usize = 52;

    const INDEX_BITS: u32 = 13;

    type VirtAddr = IoviAddr<u64>;

    open spec fn spec_va_bits() -> usize {
        52
    }

    open spec fn spec_base_page_size() -> PageSize {
        PageSize::Size64K
    }

    open spec fn spec_level_shift(level: u8) -> int {
        16 + 13 * (level - 1)
    }

    open spec fn spec_level_index_bits(level: u8) -> u32 {
        if level == 3 {
            10
        } else {
            13
        }
    }

    open spec fn spec_level_supports_leaf(level: u8, size: PageSize) -> bool {
        leaf_level_64k(level, size)
    }

    open spec fn spec_levels() -> u8 {
        3
    }

    proof fn law_leaf_spans_its_level(level: u8, size: PageSize) {
        vstd::arithmetic::power2::lemma2_to64();
        vstd::arithmetic::power2::lemma2_to64_rest();
    }

    proof fn law_levels_partition_the_address(level: u8) {
        vstd::arithmetic::power2::lemma2_to64();
    }

    fn base_page_size() -> (r: PageSize) {
        PageSize::Size64K
    }

    fn table_frame_size() -> (r: PageSize) {
        PageSize::Size64K
    }

    fn level_shift(level: u8) -> (r: u32) {
        16 + ((level as u32) - 1) * 13
    }

    fn level_index_bits(level: u8) -> (r: u32) {
        if level == 3 {
            10
        } else {
            13
        }
    }

    fn level_supports_leaf(level: u8, size: PageSize) -> (r: bool) {
        supports_leaf_64k(level, size)
    }

    fn vaddr_is_valid(vaddr: IoviAddr<u64>) -> (r: bool) {
        address_fits(vaddr.as_usize(), 52)
    }
}

} // verus!
