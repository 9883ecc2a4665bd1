//! RISC-V IOMMU page-table geometry.

use vstd::prelude::*;

use crate::addr::IoviAddr;
use crate::memory::{address_fits, PageSize, PagingMetaData};

verus! {

/// Leaves are of 4 KiB at level 1, of 2 MiB at level 2, of 1 GiB at level 3 and
/// of 512 GiB at level 4, as far as the tables have these levels.
pub open spec fn leaf_level(level: u8, size: PageSize, levels: u8) -> bool {
    &&& level <= levels
    &&& {
        ||| level == 1 && size is Size4K
        ||| level == 2 && size is Size2M
        ||| level == 3 && size is Size1G
        ||| level == 4 && size is Size512G
    }
}

fn supports_leaf(level: u8, size: PageSize, levels: u8) -> (r: bool)
    ensures
        r == leaf_level(level, size, levels),
{
    level <= levels && match size {
        PageSize::Size4K => level == 1,
        PageSize::Size2M => level == 2,
        PageSize::Size1G => level == 3,
        PageSize::Size512G => level == 4,
        _ => false,
    }
}

/// Geometry of Sv39 tables.
#[derive(Clone, Copy, Debug)]
pub struct RvIommuMeta39;

/// Geometry of Sv48 tables.
#[derive(Clone, Copy, Debug)]
pub struct RvIommuMeta48;

/// Geometry of Sv57 tables.
#[derive(Clone, Copy, Debug)]
pub struct RvIommuMeta57;

impl PagingMetaData for RvIommuMeta39 {
    const LEVELS: usize = 3;

    const PA_MAX_BITS: usize = 56;

    const VA_MAX_BITS: usize = 39;

    const INDEX_BITS: u32 = 9;

    type VirtAddr = IoviAddr<u64>;

    open spec fn spec_va_bits() -> usize {
        39
    }

    open spec fn spec_base_page_size() -> PageSize {
        PageSize::Size4K
    }

    open spec fn spec_level_shift(level: u8) -> int {
        12 + 9 * (level - 1)
    }

    open spec fn spec_level_index_bits(level: u8) -> u32 {
        9
    }

    open spec fn spec_level_supports_leaf(level: u8, size: PageSize) -> bool {
        leaf_level(level, size, 3)
    }

    open spec fn spec_levels() -> u8 {
        3
    }

    proof fn law_leaf_spans_its_level(level: u8, size: PageSize) {
        vstd::arithmetic::power2::lemma2_to64();
        vstd::arithmetic::power2::lemma2_to64_rest();
    }

    proof fn law_levels_partition_the_address(level: u8) {
        vstd::arithmetic::power2::lemma2_to64();
    }

    fn base_page_size() -> (r: PageSize) {
        PageSize::Size4K
    }

    fn table_frame_size() -> (r: PageSize) {
        PageSize::Size4K
    }

    fn level_shift(level: u8) -> (r: u32) {
        12 + ((level as u32) - 1) * 9
    }

    fn level_index_bits(level: u8) -> (r: u32) {
        9
    }

    fn level_supports_leaf(level: u8, size: PageSize) -> (r: bool) {
        supports_leaf(level, size, 3)
    }

    fn vaddr_is_valid(vaddr: IoviAddr<u64>) -> (r: bool) {
        address_fits(vaddr.as_usize(), 39)
    }
}

impl PagingMetaData for RvIommuMeta48 {
    const LEVELS: usize = 4;

    const PA_MAX_BITS: usize = 56;

    const VA_MAX_BITS: usize = 48;

    const INDEX_BITS: u32 = 9;

    type VirtAddr = IoviAddr<u64>;

    open spec fn spec_va_bits() -> usize {
        48
    }

    open spec fn spec_base_page_size() -> PageSize {
        PageSize::Size4K
    }

    open spec fn spec_level_shift(level: u8) -> int {
        12 + 9 * (level - 1)
    }

    open spec fn spec_level_index_bits(level: u8) -> u32 {
        9
    }

    open spec fn spec_level_supports_leaf(level: u8, size: PageSize) -> bool {
        leaf_level(level, size, 4)
    }

    open spec fn spec_levels() -> u8 {
        4
    }

    proof fn law_leaf_spans_its_level(level: u8, size: PageSize) {
        vstd::arithmetic::power2::lemma2_to64();
        vstd::arithmetic::power2::lemma2_to64_rest();
    }

    proof fn law_levels_partition_the_address(level: u8) {
        vstd::arithmetic::power2::lemma2_to64();
    }

    fn base_page_size() -> (r: PageSize) {
        PageSize::Size4K
    }

    fn table_frame_size() -> (r: PageSize) {
        PageSize::Size4K
    }

    fn level_shift(level: u8) -> (r: u32) {
        12 + ((level as u32) - 1) * 9
    }

    fn level_index_bits(level: u8) -> (r: u32) {
        9
    }

    fn level_supports_leaf(level: u8, size: PageSize) -> (r: bool) {
        supports_leaf(level, size, 4)
    }

    fn vaddr_is_valid(vaddr: IoviAddr<u64>) -> (r: bool) {
        address_fits(vaddr.as_usize(), 48)
    }
}

impl PagingMetaData for RvIommuMeta57 {
    const LEVELS: usize = 5;

    const PA_MAX_BITS: usize = 56;

    const VA_MAX_BITS: usize = 57;

    const INDEX_BITS: u32 = 9;

    type VirtAddr = IoviAddr<u64>;

    open spec fn spec_va_bits() -> usize {
        57
    }

    open spec fn spec_base_page_size() -> PageSize {
        PageSize::Size4K
    }

    open spec fn spec_level_shift(level: u8) -> int {
        12 + 9 * (level - 1)
    }

    open spec fn spec_level_index_bits(level: u8) -> u32 {
        9
    }

    open spec fn spec_level_supports_leaf(level: u8, size: PageSize) -> bool {
        leaf_level(level, size, 5)
    }

    open spec fn spec_levels() -> u8 {
        5
    }

    proof fn law_leaf_spans_its_level(level: u8, size: PageSize) {
        vstd::arithmetic::power2::lemma2_to64();
        vstd::arithmetic::power2::lemma2_to64_rest();
    }

    proof fn law_levels_partition_the_address(level: u8) {
        vstd::arithmetic::power2::lemma2_to64();
    }

    fn base_page_size() -> (r: PageSize) {
        PageSize::Size4K
    }

    fn table_frame_size() -> (r: PageSize) {
        PageSize::Size4K
    }

    fn level_shift(level: u8) -> (r: u32) {
        12 + ((level as u32) - 1) * 9
    }

    fn level_index_bits(level: u8) -> (r: u32) {
        9
    }

    fn level_supports_leaf(level: u8, size: PageSize) -> (r: bool) {
        supports_leaf(level, size, 5)
    }

    fn vaddr_is_valid(vaddr: IoviAddr<u64>) -> (r: bool) {
        address_fits(vaddr.as_usize(), 57)
    }
}

} // verus!
