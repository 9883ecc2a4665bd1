use std::cell::Cell;

use kore_iommu::arch::aarch64::iort::{
    IortError, IortNode, IortNodeKind, IortRequesterMatch, IortReservedMemory, IortRootComplex,
    IortSmmuGlobalInterrupt, IortSmmuInterrupt, IortSmmuV3, IortTable,
};
use kore_iommu::walk::Visits;
use kore_iommu::{Bdf, BdfRange, PciDevice};

const IORT_NODE_ITS_GROUP: u8 = 0;
const IORT_NODE_ROOT_COMPLEX: u8 = 2;
const IORT_NODE_SMMU: u8 = 3;
const IORT_NODE_SMMU_V3: u8 = 4;
const IORT_NODE_RMR: u8 = 6;

fn write_sdt_header(bytes: &mut [u8], length: usize) {
    bytes[0..4].copy_from_slice(b"IORT");
    bytes[4..8].copy_from_slice(&(length as u32).to_le_bytes());
    bytes[8] = 1;
}

fn finish_sdt_checksum(bytes: &mut [u8]) {
    bytes[9] = 0;
    bytes[9] = 0u8.wrapping_sub(
        bytes
            .iter()
            .fold(0, |sum: u8, byte| sum.wrapping_add(*byte)),
    );
}

fn write_node_header(
    bytes: &mut [u8],
    offset: usize,
    kind: u8,
    length: usize,
    identifier: u32,
    mapping_count: u32,
    mapping_offset: u32,
) {
    bytes[offset] = kind;
    bytes[offset + 1..offset + 3].copy_from_slice(&(length as u16).to_le_bytes());
    bytes[offset + 4..offset + 8].copy_from_slice(&identifier.to_le_bytes());
    bytes[offset + 8..offset + 12].copy_from_slice(&mapping_count.to_le_bytes());
    bytes[offset + 12..offset + 16].copy_from_slice(&mapping_offset.to_le_bytes());
}

fn write_id_mapping(
    bytes: &mut [u8],
    offset: usize,
    input_base: u32,
    id_count: u32,
    output_base: u32,
    output_reference: u32,
    flags: u32,
) {
    bytes[offset..offset + 4].copy_from_slice(&input_base.to_le_bytes());
    bytes[offset + 4..offset + 8].copy_from_slice(&id_count.to_le_bytes());
    bytes[offset + 8..offset + 12].copy_from_slice(&output_base.to_le_bytes());
    bytes[offset + 12..offset + 16].copy_from_slice(&output_reference.to_le_bytes());
    bytes[offset + 16..offset + 20].copy_from_slice(&flags.to_le_bytes());
}

const ROOT: usize = 48;
const ROOT_LEN: usize = 56;
const SMMU: usize = ROOT + ROOT_LEN;
const SMMU_LEN: usize = 68;
const LEN: usize = SMMU + SMMU_LEN;

fn smmu_table(mapping_flags: u32) -> [u8; LEN] {
    let mut iort = [0u8; LEN];
    write_sdt_header(&mut iort, LEN);
    iort[36..40].copy_from_slice(&2u32.to_le_bytes());
    iort[40..44].copy_from_slice(&(ROOT as u32).to_le_bytes());

    write_node_header(&mut iort, ROOT, IORT_NODE_ROOT_COMPLEX, ROOT_LEN, 7, 1, 36);
    iort[ROOT + 16..ROOT + 20].copy_from_slice(&1u32.to_le_bytes());
    iort[ROOT + 20] = 0x0f;
    iort[ROOT + 23] = 0x07;
    iort[ROOT + 24..ROOT + 28].copy_from_slice(&7u32.to_le_bytes());
    iort[ROOT + 28..ROOT + 32].copy_from_slice(&3u32.to_le_bytes());
    iort[ROOT + 32] = 48;
    iort[ROOT + 33..ROOT + 35].copy_from_slice(&0x0014u16.to_le_bytes());
    write_id_mapping(
        &mut iort,
        ROOT + 36,
        0x100,
        0x20,
        0x200,
        SMMU as u32,
        mapping_flags,
    );

    write_node_header(&mut iort, SMMU, IORT_NODE_SMMU_V3, SMMU_LEN, 11, 0, 0);
    iort[SMMU + 16..SMMU + 24].copy_from_slice(&0xfee0_0000u64.to_le_bytes());
    iort[SMMU + 24..SMMU + 28].copy_from_slice(&(1u32 << 3).to_le_bytes());
    iort[SMMU + 40..SMMU + 44].copy_from_slice(&2u32.to_le_bytes());
    iort[SMMU + 44..SMMU + 48].copy_from_slice(&33u32.to_le_bytes());
    iort[SMMU + 48..SMMU + 52].copy_from_slice(&34u32.to_le_bytes());
    iort[SMMU + 52..SMMU + 56].copy_from_slice(&35u32.to_le_bytes());
    iort[SMMU + 56..SMMU + 60].copy_from_slice(&36u32.to_le_bytes());
    iort[SMMU + 60..SMMU + 64].copy_from_slice(&9u32.to_le_bytes());
    iort[SMMU + 64..SMMU + 68].copy_from_slice(&0u32.to_le_bytes());

    finish_sdt_checksum(&mut iort);
    iort
}

#[test]
fn parses_root_complex_smmuv3_and_id_mapping() {
    let iort = smmu_table(1);
    let table = IortTable::parse(&iort).unwrap();
    let nodes = table.nodes().unwrap().collect().unwrap();
    assert!(matches!(
        nodes[0],
        IortNode::RootComplex(IortRootComplex {
            pci_segment_number: 3,
            memory_address_limit: 48,
            ..
        })
    ));
    assert!(matches!(
        nodes[1],
        IortNode::SmmuV3(IortSmmuV3 {
            event_gsiv: 33,
            pri_gsiv: 34,
            gerr_gsiv: 35,
            sync_gsiv: 36,
            pxm: 9,
            ..
        })
    ));
    assert!(matches!(
        table.node_by_reference(SMMU as u32).unwrap(),
        Some(IortNode::SmmuV3(_))
    ));

    let IortNode::RootComplex(root) = nodes[0] else {
        panic!("expected root complex");
    };
    assert!(root.ats_supported());
    assert!(root.pri_supported());
    assert!(root.pasid_forward_supported());
    assert_eq!(root.max_pasid_width(), 20);

    let mappings = table.id_mappings(nodes[0]).unwrap().collect().unwrap();
    assert_eq!(mappings[0].input_base, 0x100);
    assert_eq!(mappings[0].id_count, 0x20);
    assert_eq!(mappings[0].output_base, 0x200);
    assert_eq!(mappings[0].output_reference, SMMU as u32);
    assert!(mappings[0].is_single_mapping());

    let requester = PciDevice::new(3, 1, 0, 0).unwrap();
    assert_eq!(
        table.root_complex_requester_match(requester).unwrap(),
        Some(IortRequesterMatch::Covered)
    );
    assert_eq!(
        table
            .root_complex_bdf_ranges(3)
            .unwrap()
            .unwrap()
            .as_slice(),
        &[BdfRange::inclusive(Bdf::from_u16(0), Bdf::from_u16(u16::MAX)).unwrap()]
    );

    let translation = table
        .iommu_for_pci_requester(requester)
        .unwrap()
        .expect("expected IOMMU mapping");
    assert!(matches!(translation.node, IortNode::SmmuV3(_)));
    assert_eq!(translation.id, 0x200);
}

#[test]
fn range_mapping_covers_its_requesters_alone() {
    let iort = smmu_table(0);
    let table = IortTable::parse(&iort).unwrap();
    let ranges = table.root_complex_bdf_ranges(3).unwrap().unwrap();
    assert_eq!(
        ranges.as_slice(),
        &[BdfRange::inclusive(Bdf::from_u16(0x100), Bdf::from_u16(0x120)).unwrap()]
    );
    assert!(table.root_complex_bdf_ranges(4).unwrap().is_none());

    let inside = PciDevice::from_segment_bdf(3, Bdf::from_u16(0x105));
    assert_eq!(
        table.root_complex_requester_match(inside).unwrap(),
        Some(IortRequesterMatch::Covered)
    );
    assert_eq!(
        table.iommu_for_pci_requester(inside).unwrap().unwrap().id,
        0x205
    );
    let outside = PciDevice::from_segment_bdf(3, Bdf::from_u16(0x121));
    assert_eq!(
        table.root_complex_requester_match(outside).unwrap(),
        Some(IortRequesterMatch::NotCovered)
    );
    assert!(table.iommu_for_pci_requester(outside).unwrap().is_none());
}

#[test]
fn parses_its_group_and_reserved_memory_descriptors() {
    const ITS: usize = 48;
    const ITS_LEN: usize = 28;
    const RMR: usize = ITS + ITS_LEN;
    const RMR_LEN: usize = 68;
    const LEN: usize = RMR + RMR_LEN;

    let mut iort = [0u8; LEN];
    write_sdt_header(&mut iort, LEN);
    iort[36..40].copy_from_slice(&2u32.to_le_bytes());
    iort[40..44].copy_from_slice(&(ITS as u32).to_le_bytes());

    write_node_header(&mut iort, ITS, IORT_NODE_ITS_GROUP, ITS_LEN, 1, 0, 0);
    iort[ITS + 16..ITS + 20].copy_from_slice(&2u32.to_le_bytes());
    iort[ITS + 20..ITS + 24].copy_from_slice(&7u32.to_le_bytes());
    iort[ITS + 24..ITS + 28].copy_from_slice(&8u32.to_le_bytes());

    write_node_header(&mut iort, RMR, IORT_NODE_RMR, RMR_LEN, 2, 1, 48);
    iort[RMR + 16..RMR + 20].copy_from_slice(&0x15u32.to_le_bytes());
    iort[RMR + 20..RMR + 24].copy_from_slice(&1u32.to_le_bytes());
    iort[RMR + 24..RMR + 28].copy_from_slice(&28u32.to_le_bytes());
    iort[RMR + 28..RMR + 36].copy_from_slice(&0x4000u64.to_le_bytes());
    iort[RMR + 36..RMR + 44].copy_from_slice(&0x1000u64.to_le_bytes());
    write_id_mapping(&mut iort, RMR + 48, 0x200, 0, 0x200, ITS as u32, 0);

    finish_sdt_checksum(&mut iort);

    let table = IortTable::parse(&iort).unwrap();
    let nodes = table.nodes().unwrap().collect().unwrap();
    assert!(matches!(nodes[0].header().kind, IortNodeKind::ItsGroup));

    let IortNode::ItsGroup(group) = nodes[0] else {
        panic!("expected ITS group");
    };
    let ids = table.its_identifiers(group).unwrap().collect().unwrap();
    assert_eq!(ids[0].identifier, 7);
    assert_eq!(ids[1].identifier, 8);

    let IortNode::ReservedMemory(memory) = nodes[1] else {
        panic!("expected RMR");
    };
    assert!(matches!(
        memory,
        IortReservedMemory {
            descriptor_count: 1,
            ..
        }
    ));
    assert!(memory.remap_permitted());
    assert!(!memory.privileged_access());
    assert_eq!(memory.access_attributes(), 5);

    let descriptors = table.rmr_descriptors(memory).unwrap().collect().unwrap();
    assert_eq!(descriptors[0].memory.start.as_usize(), 0x4000);
    assert_eq!(descriptors[0].memory.end.as_usize(), 0x5000);
    assert_eq!(
        table
            .rmr_bdf_ranges(descriptors[0].memory)
            .unwrap()
            .unwrap()
            .as_slice(),
        &[BdfRange::single(Bdf::from_u16(0x200))]
    );
}

#[test]
fn nodes_that_leave_the_table_are_malformed() {
    let mut iort = smmu_table(1);
    iort[SMMU + 1..SMMU + 3].copy_from_slice(&69u16.to_le_bytes());
    finish_sdt_checksum(&mut iort);
    let table = IortTable::parse(&iort).unwrap();
    assert!(matches!(
        table.nodes().unwrap().collect(),
        Err(IortError::Malformed(_))
    ));
}

#[test]
fn ranges_and_matches_agree_on_every_requester_of_the_mapping() {
    let iort = smmu_table(0);
    let table = IortTable::parse(&iort).unwrap();
    let ranges = table.root_complex_bdf_ranges(3).unwrap().unwrap();
    for id in 0xf0u16..0x130 {
        let bdf = Bdf::from_u16(id);
        let in_ranges = ranges.as_slice().iter().any(|range| range.contains(bdf));
        let matched = table
            .root_complex_requester_match(PciDevice::from_segment_bdf(3, bdf))
            .unwrap();
        assert_eq!(matched == Some(IortRequesterMatch::Covered), in_ranges);
    }
    let a = table
        .iommu_for_pci_requester(PciDevice::from_segment_bdf(3, Bdf::from_u16(0x105)))
        .unwrap()
        .unwrap()
        .id;
    let b = table
        .iommu_for_pci_requester(PciDevice::from_segment_bdf(3, Bdf::from_u16(0x11a)))
        .unwrap()
        .unwrap()
        .id;
    assert_eq!(b - a, 0x15);
}

fn legacy_smmu_table() -> [u8; 140] {
    let mut iort = [0u8; 140];
    write_sdt_header(&mut iort, 140);
    iort[36..40].copy_from_slice(&1u32.to_le_bytes());
    iort[40..44].copy_from_slice(&48u32.to_le_bytes());
    write_node_header(&mut iort, 48, IORT_NODE_SMMU, 92, 5, 0, 0);
    iort[64..72].copy_from_slice(&0xfee1_0000u64.to_le_bytes());
    iort[72..80].copy_from_slice(&0x1_0000u64.to_le_bytes());
    iort[80..84].copy_from_slice(&1u32.to_le_bytes());
    iort[88..92].copy_from_slice(&60u32.to_le_bytes());
    iort[92..96].copy_from_slice(&1u32.to_le_bytes());
    iort[96..100].copy_from_slice(&76u32.to_le_bytes());
    iort[100..104].copy_from_slice(&1u32.to_le_bytes());
    iort[104..108].copy_from_slice(&84u32.to_le_bytes());
    for (index, value) in [11u32, 12, 13, 14, 21, 22, 31, 32].iter().enumerate() {
        let at = 108 + 4 * index;
        iort[at..at + 4].copy_from_slice(&value.to_le_bytes());
    }
    finish_sdt_checksum(&mut iort);
    iort
}

#[test]
fn legacy_smmu_has_global_context_and_pmu_interrupts() {
    let iort = legacy_smmu_table();
    let table = IortTable::parse(&iort).unwrap();
    let nodes = table.nodes().unwrap().collect().unwrap();
    let IortNode::Smmu(smmu) = nodes[0] else {
        panic!("expected SMMU");
    };
    assert_eq!(smmu.registers.size(), 0x1_0000);
    assert_eq!(
        table.smmu_global_interrupt(smmu).unwrap(),
        Some(IortSmmuGlobalInterrupt {
            nsg_irpt: 11,
            nsg_irpt_flags: 12,
            nsg_cfg_irpt: 13,
            nsg_cfg_irpt_flags: 14,
        })
    );
    assert_eq!(
        table.smmu_context_interrupts(smmu).unwrap().collect().unwrap(),
        vec![IortSmmuInterrupt { gsiv: 21, flags: 22 }]
    );
    assert_eq!(
        table.smmu_pmu_interrupts(smmu).unwrap().collect().unwrap(),
        vec![IortSmmuInterrupt { gsiv: 31, flags: 32 }]
    );
}

#[test]
fn interrupt_arrays_stay_in_their_node() {
    let mut iort = legacy_smmu_table();
    iort[92..96].copy_from_slice(&3u32.to_le_bytes());
    iort[88..92].copy_from_slice(&80u32.to_le_bytes());
    iort[100..104].copy_from_slice(&0u32.to_le_bytes());
    finish_sdt_checksum(&mut iort);
    let table = IortTable::parse(&iort).unwrap();
    let nodes = table.nodes().unwrap().collect().unwrap();
    let IortNode::Smmu(smmu) = nodes[0] else {
        panic!("expected SMMU");
    };
    assert_eq!(
        table.smmu_context_interrupts(smmu).map(|_| ()),
        Err(IortError::Malformed("IORT SMMU interrupt array extends past node"))
    );
    assert_eq!(
        table.smmu_global_interrupt(smmu),
        Err(IortError::Malformed("IORT SMMU global interrupt extends past node"))
    );
    assert_eq!(table.smmu_pmu_interrupts(smmu).unwrap().collect().unwrap(), vec![]);
}

#[test]
fn visitors_see_the_nodes_of_their_kind() {
    let iort = smmu_table(1);
    let table = IortTable::parse(&iort).unwrap();
    let units = Cell::new(0);
    table
        .for_each_smmu_v3(|smmu| {
            assert_eq!(smmu.event_gsiv, 33);
            units.set(units.get() + 1);
            Ok(())
        })
        .unwrap();
    let roots = Cell::new(0);
    table
        .for_each_root_complex(|root| {
            assert_eq!(root.pci_segment_number, 3);
            roots.set(roots.get() + 1);
            Ok(())
        })
        .unwrap();
    assert_eq!((units.get(), roots.get()), (1, 1));
    assert_eq!(
        table.for_each_smmu_v3(|_| Err(IortError::Malformed("stop"))),
        Err(IortError::Malformed("stop"))
    );
    assert_eq!(
        table.for_each_reserved_memory(|_| Err(IortError::Malformed("none"))),
        Ok(())
    );
}

#[test]
fn nodes_are_handed_over_once_each() {
    let iort = smmu_table(1);
    let table = IortTable::parse(&iort).unwrap();
    let count = table.nodes().unwrap().collect().unwrap().len();
    let calls = Cell::new(0usize);
    let mut visitor = Visits::new(|_: IortNode| {
        calls.set(calls.get() + 1);
        Ok(())
    });
    table.visit_nodes(&mut visitor).unwrap();
    assert_eq!(calls.get(), count);
    let mut refusing = Visits::new(|_: IortNode| {
        calls.set(calls.get() + 1);
        Err(IortError::Malformed("stop"))
    });
    assert_eq!(
        table.visit_nodes(&mut refusing),
        Err(IortError::Malformed("stop"))
    );
    assert_eq!(calls.get(), count + 1);
}
