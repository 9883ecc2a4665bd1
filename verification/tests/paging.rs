use kore_iommu::arch::aarch64::smmu3::{
    SmmuVmsaMeta16K48, SmmuVmsaMeta16K52, SmmuVmsaMeta4K48, SmmuVmsaMeta4K52, SmmuVmsaMeta64K48,
    SmmuVmsaMeta64K52,
};
use kore_iommu::arch::riscv64::riscv::paging::{RvIommuMeta39, RvIommuMeta48, RvIommuMeta57};
use kore_iommu::arch::x86_64::amd::paging::{
    next_level, AmdViFlags, AmdViMeta48, AmdViPte, LARGE_LEAF_LEVEL,
};
use kore_iommu::arch::x86_64::intel::paging::{
    VtdSecondLevelFlags, VtdSecondLevelMeta39, VtdSecondLevelMeta57, VtdSecondLevelPte,
};
use kore_iommu::mapping::{IntoMapBacking, MapBacking, Mapping, MappingContiguity, MappingFlags};
use kore_iommu::memory::{
    AccessFlags, CachePolicy, PageSize, PageTableEntry, PageTableEntryKind, PagingMetaData,
};
use kore_iommu::{IoviAddr, PhysAddr, PhysAddrRange, VirtAddr, VirtAddrRange};

const SUPER_PAGE: u64 = 1 << 7;

#[test]
fn leaf_2m_sets_super_bit() {
    let flags = VtdSecondLevelFlags::new(AccessFlags::read() | AccessFlags::write());
    let pte = VtdSecondLevelPte::new_leaf(PhysAddr::from_usize(0x20_0000), flags, PageSize::Size2M);

    assert_eq!(pte.entry_kind(2), PageTableEntryKind::Leaf);
    assert_eq!(pte.bits() & SUPER_PAGE, SUPER_PAGE);
    assert_eq!(pte.paddr(), PhysAddr::from_usize(0x20_0000));
    assert!(pte.flags().access.contains(AccessFlags::read()));
    assert!(pte.flags().access.contains(AccessFlags::write()));
}

#[test]
fn table_entry_is_intermediate() {
    let pte = VtdSecondLevelPte::new_table(PhysAddr::from_usize(0x4000), 4);
    assert_eq!(pte.entry_kind(4), PageTableEntryKind::Table);
    assert_eq!(pte.paddr(), PhysAddr::from_usize(0x4000));
}

#[test]
fn table_entry_encodes_child_level() {
    let pte = AmdViPte::new_table(PhysAddr::from_usize(0x8000), 4);
    assert_eq!(next_level(pte.bits()), 3);
    assert_eq!(pte.entry_kind(4), PageTableEntryKind::Table);
    assert_eq!(pte.paddr(), PhysAddr::from_usize(0x8000));
}

#[test]
fn large_leaf_uses_large_level_marker() {
    let flags = AmdViFlags::new(AccessFlags::read() | AccessFlags::write());
    let pte = AmdViPte::new_leaf(PhysAddr::from_usize(0x4000_0000), flags, PageSize::Size1G);

    assert_eq!(next_level(pte.bits()), LARGE_LEAF_LEVEL);
    assert_eq!(pte.entry_kind(3), PageTableEntryKind::Leaf);
    assert!(pte.flags().access.contains(AccessFlags::read()));
    assert!(pte.flags().access.contains(AccessFlags::write()));
}

#[test]
fn smmu_vmsa_uses_iova_addresses() {
    let iova = IoviAddr::<u64>::from(0x1000);
    assert!(SmmuVmsaMeta4K48::vaddr_is_valid(iova));
}

#[test]
fn root_index_widths_match_granule_and_va_width() {
    assert_eq!(SmmuVmsaMeta16K48::level_index_bits(4), 1);
    assert_eq!(SmmuVmsaMeta16K52::level_index_bits(4), 5);
    assert_eq!(SmmuVmsaMeta64K48::level_index_bits(3), 6);
    assert_eq!(SmmuVmsaMeta64K52::level_index_bits(3), 10);
}

#[test]
fn riscv_iommu_uses_iova_addresses() {
    let iova = IoviAddr::<u64>::from(0x1000);
    assert!(RvIommuMeta39::vaddr_is_valid(iova));
}

#[test]
fn sv_widths_match_expected_levels() {
    assert_eq!(RvIommuMeta39::LEVELS, 3);
    assert_eq!(RvIommuMeta48::LEVELS, 4);
    assert_eq!(RvIommuMeta57::LEVELS, 5);
}

#[test]
fn second_level_entries_have_exact_bits() {
    let read_only = VtdSecondLevelFlags::new(AccessFlags::read());
    let small = VtdSecondLevelPte::new_leaf(PhysAddr::from_usize(0x5fff), read_only, PageSize::Size4K);
    assert_eq!(small.bits(), 0x5001);
    assert_eq!(small.entry_kind(1), PageTableEntryKind::Leaf);
    assert!(!small.flags().access.contains(AccessFlags::write()));

    let none = VtdSecondLevelPte::new_leaf(
        PhysAddr::from_usize(0x5000),
        VtdSecondLevelFlags::default(),
        PageSize::Size2M,
    );
    assert_eq!(none.bits(), 0x5080);
    assert!(!none.is_present());
    assert_eq!(none.entry_kind(2), PageTableEntryKind::Invalid);

    let table = VtdSecondLevelPte::new_table(PhysAddr::from_usize(0x6000), 2);
    assert_eq!(table.bits(), 0x6003);
    let mut entry = table;
    entry.clear();
    assert_eq!(entry, VtdSecondLevelPte::from_bits(0));
}

#[test]
fn amd_entries_have_exact_bits() {
    let write_only = AmdViFlags::new(AccessFlags::write()).with_cache(CachePolicy::Uncached);
    let small = AmdViPte::new_leaf(PhysAddr::from_usize(0x7000), write_only, PageSize::Size4K);
    assert_eq!(small.bits(), 0x4000_0000_0000_7001);
    assert_eq!(small.entry_kind(1), PageTableEntryKind::Leaf);
    assert_eq!(
        AmdViPte::new_table(PhysAddr::from_usize(0x8000), 4).bits(),
        0x6000_0000_0000_8601
    );
    assert_eq!(
        AmdViPte::from_bits(0x8601).entry_kind(3),
        PageTableEntryKind::Invalid
    );
    assert_eq!(AmdViPte::from_bits(0).entry_kind(1), PageTableEntryKind::Invalid);
}

#[test]
fn levels_shift_and_leaves_follow_the_geometry() {
    assert_eq!(VtdSecondLevelMeta39::level_shift(3), 30);
    assert_eq!(AmdViMeta48::level_shift(4), 39);
    assert_eq!(SmmuVmsaMeta4K52::level_index_bits(5), 4);
    assert_eq!(SmmuVmsaMeta4K52::level_index_bits(4), 9);
    assert_eq!(SmmuVmsaMeta16K52::level_shift(4), 47);
    assert_eq!(SmmuVmsaMeta64K52::base_page_size(), PageSize::Size64K);
    assert!(SmmuVmsaMeta64K48::level_supports_leaf(3, PageSize::Size4T));
    assert!(!SmmuVmsaMeta64K48::level_supports_leaf(3, PageSize::Size1G));
    assert!(!RvIommuMeta39::level_supports_leaf(4, PageSize::Size512G));
    assert!(RvIommuMeta48::level_supports_leaf(4, PageSize::Size512G));
    assert!(!VtdSecondLevelMeta57::level_supports_leaf(4, PageSize::Size512G));
}

#[test]
fn addresses_past_the_width_are_invalid() {
    assert!(VtdSecondLevelMeta39::vaddr_is_valid(IoviAddr::<u64>::from((1usize << 39) - 1)));
    assert!(!VtdSecondLevelMeta39::vaddr_is_valid(IoviAddr::<u64>::from(1usize << 39)));
    assert!(!SmmuVmsaMeta4K48::vaddr_is_valid(IoviAddr::<u64>::from(1usize << 48)));
    assert!(SmmuVmsaMeta4K52::vaddr_is_valid(IoviAddr::<u64>::from(1usize << 48)));
}

#[test]
fn mapping_knows_its_leaf_size() {
    let range = VirtAddrRange::from_start_size(VirtAddr::from_usize(0x20_0000), 0x20_0000);
    let mapping: Mapping<VtdSecondLevelPte, VirtAddr> =
        Mapping::new(range, PhysAddr::from_usize(0x40_0000), VtdSecondLevelFlags::default());
    assert_eq!(mapping.size(), Some(PageSize::Size2M));

    let odd = VirtAddrRange::from_start_size(VirtAddr::from_usize(0x20_0000), 0x3000);
    let mapping: Mapping<VtdSecondLevelPte, VirtAddr> =
        Mapping::new(odd, PhysAddr::from_usize(0x40_0000), VtdSecondLevelFlags::default());
    assert_eq!(mapping.size(), None);
}

#[test]
fn backing_expressions_become_backings() {
    let extent = PhysAddrRange::from_start_size(PhysAddr::from_usize(0x1000), 0x2000);
    assert_eq!(
        PhysAddr::from_usize(0x1000).into_map_backing(0x2000).unwrap(),
        MapBacking::Contiguous(extent)
    );
    assert_eq!(
        extent.into_map_backing(0x2000).unwrap(),
        MapBacking::contiguous(extent)
    );
    let parts = [
        extent,
        PhysAddrRange::from_start_size(PhysAddr::from_usize(0x8000), 0x1000),
    ];
    assert_eq!(
        (&parts).into_map_backing(0x3000).unwrap(),
        MapBacking::Scattered(&parts[..])
    );
    assert_eq!(
        (&parts[..1]).into_map_backing(0x2000).unwrap(),
        MapBacking::scattered(&parts[..1])
    );
    let mut list = heapless::Vec::<PhysAddrRange, 4>::new();
    list.push(parts[1]).unwrap();
    list.push(parts[0]).unwrap();
    assert_eq!(
        (&list).into_map_backing(0x3000).unwrap(),
        MapBacking::Scattered(&[parts[1], parts[0]])
    );
}

#[test]
fn mapping_flags_carry_their_shape() {
    let leaf = VtdSecondLevelFlags::new(AccessFlags::read());
    assert_eq!(
        MappingFlags::from(leaf).contiguity(),
        MappingContiguity::Contiguous
    );
    let scattered = MappingFlags::scattered(leaf, PageSize::Size4K);
    assert_eq!(scattered.leaf(), leaf);
    assert_eq!(
        scattered.contiguity(),
        MappingContiguity::Scattered(PageSize::Size4K)
    );
    assert_eq!(
        scattered.with_contiguity(MappingContiguity::Contiguous),
        MappingFlags::contiguous(leaf)
    );
}

#[test]
fn page_sizes_are_found_by_their_bytes() {
    for size in [
        PageSize::Size4K,
        PageSize::Size16K,
        PageSize::Size64K,
        PageSize::Size2M,
        PageSize::Size32M,
        PageSize::Size512M,
        PageSize::Size1G,
        PageSize::Size64G,
        PageSize::Size512G,
        PageSize::Size4T,
    ] {
        assert_eq!(PageSize::from_bytes(size.bytes()), Some(size));
    }
    assert_eq!(PageSize::from_bytes(0x2000), None);
}
