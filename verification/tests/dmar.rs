use std::cell::{Cell, RefCell};

use kore_iommu::arch::x86_64::intel::dmar::{
    DmarBdfRange, DmarDeviceScope, DmarDeviceScopeKind, DmarError, DmarRequesterMatch, DmarStructure, DmarTable,
    VTD_REGISTER_WINDOW_SIZE,
};
use kore_iommu::walk::Visits;
use kore_iommu::{
    Bdf, Error, MmioAddr, MmioAddrRange, MmioRange, PciDevice, PhysAddr, PhysAddrRange,
};

fn registers(base: usize) -> MmioAddrRange {
    <MmioAddrRange as MmioRange<usize>>::from_start_size(
        MmioAddr::from(base),
        VTD_REGISTER_WINDOW_SIZE,
    )
    .unwrap()
}

fn write_sdt_header(bytes: &mut [u8], length: usize) {
    bytes[0..4].copy_from_slice(b"DMAR");
    bytes[4..8].copy_from_slice(&(length as u32).to_le_bytes());
    bytes[8] = 1;
}

fn finish_sdt_checksum(bytes: &mut [u8]) {
    bytes[9] = 0;
    bytes[9] = 0u8.wrapping_sub(
        bytes
            .iter()
            .fold(0, |sum: u8, byte| sum.wrapping_add(*byte)),
    );
}

fn drhd_table() -> [u8; 88] {
    let mut dmar = [0u8; 88];
    write_sdt_header(&mut dmar, 88);
    dmar[36] = 47;

    dmar[48..50].copy_from_slice(&0u16.to_le_bytes());
    dmar[50..52].copy_from_slice(&40u16.to_le_bytes());
    dmar[54..56].copy_from_slice(&3u16.to_le_bytes());
    dmar[56..64].copy_from_slice(&(0xfed9_0000u64).to_le_bytes());

    for (offset, function) in [(64, 0u8), (72, 1u8), (80, 2u8)] {
        dmar[offset] = 1;
        dmar[offset + 1] = 8;
        dmar[offset + 5] = 0x2a;
        dmar[offset + 6] = 5;
        dmar[offset + 7] = function;
    }

    finish_sdt_checksum(&mut dmar);
    dmar
}

#[test]
fn parses_drhd_and_exact_bdf_ranges() {
    let dmar = drhd_table();
    let table = DmarTable::parse(&dmar).unwrap();
    assert_eq!(table.host_address_width().unwrap(), 47);

    let units = table.structures().collect().unwrap();
    assert!(matches!(units.as_slice(), [DmarStructure::Drhd(unit)] if unit.segment == 3));

    let windows = table
        .drhd_bdf_ranges(registers(0xfed9_0000))
        .unwrap()
        .unwrap();
    assert_eq!(
        windows.as_slice(),
        &[DmarBdfRange::inclusive(
            Bdf::new(0x2a, 5, 0).unwrap(),
            Bdf::new(0x2a, 5, 2).unwrap()
        )
        .unwrap()]
    );
    assert_eq!(
        table
            .drhd_requester_match(
                registers(0xfed9_0000),
                PciDevice::new(3, 0x2a, 5, 1).unwrap()
            )
            .unwrap(),
        Some(DmarRequesterMatch::Covered)
    );
}

#[test]
fn parses_reserved_memory_affinity_and_satc() {
    let mut dmar = [0u8; 100];
    write_sdt_header(&mut dmar, 100);
    dmar[36] = 47;

    dmar[48..50].copy_from_slice(&1u16.to_le_bytes());
    dmar[50..52].copy_from_slice(&24u16.to_le_bytes());
    dmar[54..56].copy_from_slice(&2u16.to_le_bytes());
    dmar[56..64].copy_from_slice(&(0x1000_0000u64).to_le_bytes());
    dmar[64..72].copy_from_slice(&(0x1000_ffffu64).to_le_bytes());

    dmar[72..74].copy_from_slice(&3u16.to_le_bytes());
    dmar[74..76].copy_from_slice(&20u16.to_le_bytes());
    dmar[80..88].copy_from_slice(&(0xfed9_1000u64).to_le_bytes());
    dmar[88..92].copy_from_slice(&9u32.to_le_bytes());

    dmar[92..94].copy_from_slice(&5u16.to_le_bytes());
    dmar[94..96].copy_from_slice(&8u16.to_le_bytes());
    dmar[96] = 1;
    dmar[98..100].copy_from_slice(&2u16.to_le_bytes());

    finish_sdt_checksum(&mut dmar);

    let table = DmarTable::parse(&dmar).unwrap();
    let rmrr = Cell::new(None);
    table
        .for_each_rmrr(|region| {
            rmrr.set(Some(region));
            Ok(())
        })
        .unwrap();
    assert_eq!(rmrr.get().unwrap().segment, 2);
    assert_eq!(
        table
            .rhsa_proximity_domain_for_registers(registers(0xfed9_1000))
            .unwrap(),
        Some(9)
    );

    let satc = Cell::new(None);
    table
        .for_each_satc(|unit| {
            satc.set(Some(unit));
            Ok(())
        })
        .unwrap();
    assert!(satc.get().unwrap().atc_required);

    assert_eq!(
        rmrr.get().unwrap().memory,
        PhysAddrRange::from_start_size(PhysAddr::from_usize(0x1000_0000), 0x1_0000)
    );
}

#[test]
fn parses_andd_and_preserves_multi_hop_scope_path() {
    let mut dmar = [0u8; 86];
    write_sdt_header(&mut dmar, 86);
    dmar[36] = 47;

    dmar[48..50].copy_from_slice(&0u16.to_le_bytes());
    dmar[50..52].copy_from_slice(&26u16.to_le_bytes());
    dmar[56..64].copy_from_slice(&(0xfed9_0000u64).to_le_bytes());

    dmar[64] = 5;
    dmar[65] = 10;
    dmar[68] = 7;
    dmar[69] = 0x2a;
    dmar[70] = 0x1c;
    dmar[71] = 0;
    dmar[72] = 5;
    dmar[73] = 1;

    dmar[74..76].copy_from_slice(&4u16.to_le_bytes());
    dmar[76..78].copy_from_slice(&12u16.to_le_bytes());
    dmar[81] = 7;
    dmar[82..86].copy_from_slice(b"DEV0");

    finish_sdt_checksum(&mut dmar);

    let table = DmarTable::parse(&dmar).unwrap();
    let structures = table.structures().collect().unwrap();
    assert!(
        matches!(structures.as_slice(), [DmarStructure::Drhd(_), DmarStructure::Andd(andd)]
            if andd.acpi_device_number == 7 && andd.object_name == b"DEV0")
    );
    assert_eq!(
        table.andd_name_for_device_number(7).unwrap(),
        Some(&b"DEV0"[..])
    );

    let DmarStructure::Drhd(unit) = structures[0] else {
        panic!("expected DRHD");
    };
    let scope = Cell::new(None);
    table
        .for_each_drhd_device_scope(unit, |s| {
            scope.set(Some(s));
            Ok(())
        })
        .unwrap();
    let scope = scope.get().unwrap();
    assert_eq!(scope.kind, DmarDeviceScopeKind::NamespaceDevice);
    assert_eq!(scope.flags, 0);
    assert_eq!(scope.enumeration_id, 7);
    assert_eq!(scope.start_bus, 0x2a);
    assert_eq!(scope.path.depth(), 2);
    assert_eq!(scope.path.entry(0).unwrap().device, 0x1c);
    assert_eq!(scope.path.entry(1).unwrap().function, 1);
    assert_eq!(scope.requester, None);

    assert_eq!(
        table
            .drhd_requester_match(registers(0xfed9_0000), PciDevice::new(0, 1, 2, 3).unwrap())
            .unwrap(),
        Some(DmarRequesterMatch::Unresolved)
    );
}

#[test]
fn parses_sidp_and_ignores_satc_policy_when_present() {
    let mut dmar = [0u8; 80];
    write_sdt_header(&mut dmar, 80);
    dmar[36] = 47;

    dmar[48..50].copy_from_slice(&5u16.to_le_bytes());
    dmar[50..52].copy_from_slice(&16u16.to_le_bytes());
    dmar[52] = 1;
    dmar[54..56].copy_from_slice(&2u16.to_le_bytes());
    dmar[56] = 1;
    dmar[57] = 8;
    dmar[61] = 0x2a;
    dmar[62] = 5;
    dmar[63] = 1;

    dmar[64..66].copy_from_slice(&6u16.to_le_bytes());
    dmar[66..68].copy_from_slice(&16u16.to_le_bytes());
    dmar[70..72].copy_from_slice(&2u16.to_le_bytes());
    dmar[72] = 1;
    dmar[73] = 8;
    dmar[74] = 0x81;
    dmar[76] = 3;
    dmar[77] = 0x2a;
    dmar[78] = 5;
    dmar[79] = 1;

    finish_sdt_checksum(&mut dmar);

    let table = DmarTable::parse(&dmar).unwrap();
    let structures = table.structures().collect().unwrap();
    assert!(
        matches!(structures.as_slice(), [DmarStructure::Satc(satc), DmarStructure::Sidp(sidp)]
            if satc.segment == 2 && sidp.segment == 2 && sidp.has_device_scopes)
    );
    assert!(table.has_sidp().unwrap());
    assert!(!table
        .satc_device_ats_required(PciDevice::new(2, 0x2a, 5, 1).unwrap())
        .unwrap());

    let DmarStructure::Sidp(sidp) = structures[1] else {
        panic!("expected SIDP");
    };
    let scope = Cell::new(None);
    table
        .for_each_sidp_device_scope(sidp, |s| {
            scope.set(Some(s));
            Ok(())
        })
        .unwrap();
    let scope = scope.get().unwrap();
    assert_eq!(scope.kind, DmarDeviceScopeKind::Endpoint);
    assert_eq!(scope.flags, 0x81);
    assert_eq!(scope.enumeration_id, 3);
    assert_eq!(
        scope.requester,
        Some(DmarBdfRange::single(Bdf::new(0x2a, 5, 1).unwrap()))
    );
}

#[test]
fn requesters_of_other_units_are_not_covered() {
    let dmar = drhd_table();
    let table = DmarTable::parse(&dmar).unwrap();
    assert_eq!(
        table
            .drhd_requester_match(
                registers(0xfed9_0000),
                PciDevice::new(3, 0x2a, 6, 0).unwrap()
            )
            .unwrap(),
        Some(DmarRequesterMatch::NotCovered)
    );
    assert_eq!(
        table
            .drhd_requester_match(
                registers(0xfeda_0000),
                PciDevice::new(3, 0x2a, 5, 0).unwrap()
            )
            .unwrap(),
        None
    );
    assert!(table.drhd_bdf_ranges(registers(0xfeda_0000)).unwrap().is_none());
    assert!(table
        .rhsa_proximity_domain_for_registers(registers(0xfed9_0000))
        .unwrap()
        .is_none());
}

#[test]
fn malformed_tables_become_range_errors() {
    let mut dmar = drhd_table();
    dmar[50..52].copy_from_slice(&41u16.to_le_bytes());
    finish_sdt_checksum(&mut dmar);
    let table = DmarTable::parse(&dmar).unwrap();
    let error = table.structures().collect().err().unwrap();
    assert!(matches!(error, DmarError::Malformed(_)));
    assert_eq!(Error::from(error), Error::InvalidRange);

    dmar[9] = dmar[9].wrapping_add(1);
    let error = DmarTable::parse(&dmar).err().unwrap();
    assert_eq!(Error::from(error), Error::InvalidController);
}

#[test]
fn ranges_and_matches_agree_on_every_requester_of_the_unit() {
    let dmar = drhd_table();
    let table = DmarTable::parse(&dmar).unwrap();
    let ranges = table
        .drhd_bdf_ranges(registers(0xfed9_0000))
        .unwrap()
        .unwrap();
    for id in 0x2a20u16..0x2a38 {
        let bdf = Bdf::from_u16(id);
        let in_ranges = ranges.as_slice().iter().any(|range| range.contains(bdf));
        let matched = table
            .drhd_requester_match(
                registers(0xfed9_0000),
                PciDevice::from_segment_bdf(3, bdf),
            )
            .unwrap();
        assert_eq!(matched == Some(DmarRequesterMatch::Covered), in_ranges);
    }
}

#[test]
fn reserved_memory_lists_its_requesters() {
    let mut dmar = [0u8; 88];
    write_sdt_header(&mut dmar, 88);
    dmar[48..50].copy_from_slice(&1u16.to_le_bytes());
    dmar[50..52].copy_from_slice(&40u16.to_le_bytes());
    dmar[54..56].copy_from_slice(&2u16.to_le_bytes());
    dmar[56..64].copy_from_slice(&(0x1000_0000u64).to_le_bytes());
    dmar[64..72].copy_from_slice(&(0x1000_ffffu64).to_le_bytes());
    for (offset, function) in [(72, 1u8), (80, 3u8)] {
        dmar[offset] = 1;
        dmar[offset + 1] = 8;
        dmar[offset + 5] = 0x2a;
        dmar[offset + 6] = 5;
        dmar[offset + 7] = function;
    }
    finish_sdt_checksum(&mut dmar);
    let table = DmarTable::parse(&dmar).unwrap();
    let structures = table.structures().collect().unwrap();
    let DmarStructure::Rmrr(region) = structures[0] else {
        panic!("expected RMRR");
    };
    let ranges = table
        .rmrr_bdf_ranges(2, region.memory)
        .unwrap()
        .unwrap();
    assert_eq!(
        ranges.as_slice(),
        &[
            DmarBdfRange::single(Bdf::new(0x2a, 5, 1).unwrap()),
            DmarBdfRange::single(Bdf::new(0x2a, 5, 3).unwrap())
        ]
    );
    assert!(table.rmrr_bdf_ranges(1, region.memory).unwrap().is_none());

    let scopes = Cell::new(0);
    table
        .for_each_rmrr_device_scope(region, |scope| {
            assert_eq!(scope.path.as_bytes().len(), 2);
            assert_eq!(scope.path.last_entry().unwrap().device, 5);
            scopes.set(scopes.get() + 1);
            Ok(())
        })
        .unwrap();
    assert_eq!(scopes.get(), 2);
}

#[test]
fn device_scopes_are_read_one_by_one() {
    let dmar = drhd_table();
    let table = DmarTable::parse(&dmar).unwrap();
    let structures = table.structures().collect().unwrap();
    let DmarStructure::Drhd(unit) = structures[0] else {
        panic!("expected DRHD");
    };
    let mut scopes = table.drhd_device_scopes(unit);
    for function in 0..3 {
        let scope = scopes.next().unwrap().unwrap();
        assert_eq!(
            scope.requester,
            Some(DmarBdfRange::single(Bdf::new(0x2a, 5, function).unwrap()))
        );
    }
    assert!(scopes.next().is_none());
}

/// Hands the scopes of a structure to a callback that takes each.
fn walk(
    table: &DmarTable,
    structure_offset: usize,
    scopes_offset: usize,
    structure_length: usize,
) -> Result<(), DmarError> {
    let mut visitor = Visits::new(|_| Ok(()));
    table.walk_device_scopes(structure_offset, scopes_offset, structure_length, &mut visitor)
}

#[test]
fn device_scopes_that_leave_the_table_are_out_of_bounds() {
    let dmar = drhd_table();
    let table = DmarTable::parse(&dmar).unwrap();
    let out = Err(DmarError::Malformed("DMAR table read is out of bounds"));
    assert_eq!(walk(&table, 200, 16, 40), out);
    assert_eq!(walk(&table, 80, 0, 16), out);
    assert_eq!(walk(&table, usize::MAX, 0, 6), out);
    assert_eq!(walk(&table, 80, 0, 8), Ok(()));
}

#[test]
fn scopes_are_handed_over_in_order_up_to_a_refusal() {
    let dmar = drhd_table();
    let table = DmarTable::parse(&dmar).unwrap();
    let structures = table.structures().collect().unwrap();
    let DmarStructure::Drhd(unit) = structures[0] else {
        panic!("expected DRHD");
    };
    let mut expected = Vec::new();
    let mut scopes = table.drhd_device_scopes(unit);
    while let Some(scope) = scopes.next() {
        expected.push(scope.unwrap().requester);
    }
    assert!(!expected.is_empty());

    let seen = RefCell::new(Vec::new());
    let mut visitor = Visits::new(|scope: DmarDeviceScope| {
        seen.borrow_mut().push(scope.requester);
        Ok(())
    });
    table
        .walk_device_scopes(unit.structure_offset, 16, unit.length, &mut visitor)
        .unwrap();
    assert_eq!(*seen.borrow(), expected);

    let calls = Cell::new(0usize);
    let mut refusing = Visits::new(|_: DmarDeviceScope| {
        calls.set(calls.get() + 1);
        Err(DmarError::Malformed("stop"))
    });
    assert_eq!(
        table.walk_device_scopes(unit.structure_offset, 16, unit.length, &mut refusing),
        Err(DmarError::Malformed("stop"))
    );
    assert_eq!(calls.get(), 1);

    let kinds = Cell::new(0usize);
    let mut counting = Visits::new(|_: DmarStructure| {
        kinds.set(kinds.get() + 1);
        Ok(())
    });
    table.visit_structures(&mut counting).unwrap();
    assert_eq!(kinds.get(), structures.len());
}
