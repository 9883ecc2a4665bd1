use std::cell::RefCell;

use kore_iommu::arch::x86_64::amd::ivrs::{
    device_entries_offset, IvhdDeviceEntry, IvrsBdfRange, IvrsBlock, IvrsError, IvrsTable,
    AMD_VI_REGISTER_WINDOW_SIZE,
};
use kore_iommu::firm::acpi::{AcpiError, Signature};
use kore_iommu::walk::Visits;
use kore_iommu::{Bdf, MmioAddr, MmioAddrRange, MmioRange, PhysAddr, PhysAddrRange};

fn registers(base: usize) -> MmioAddrRange {
    <MmioAddrRange as MmioRange<usize>>::from_start_size(
        MmioAddr::from(base),
        AMD_VI_REGISTER_WINDOW_SIZE,
    )
    .unwrap()
}

fn write_sdt_header(bytes: &mut [u8], length: usize) {
    bytes[0..4].copy_from_slice(b"IVRS");
    bytes[4..8].copy_from_slice(&(length as u32).to_le_bytes());
    bytes[8] = 1;
}

fn finish_sdt_checksum(bytes: &mut [u8]) {
    bytes[9] = 0;
    bytes[9] = 0u8.wrapping_sub(
        bytes
            .iter()
            .fold(0, |sum: u8, byte| sum.wrapping_add(*byte)),
    );
}

#[test]
fn parses_ivhd_and_bdf_ranges() {
    let mut ivrs = [0u8; 80];
    write_sdt_header(&mut ivrs, 80);
    ivrs[36..40].copy_from_slice(&0x1234u32.to_le_bytes());

    ivrs[48] = 0x10;
    ivrs[49] = 1 << 5;
    ivrs[50..52].copy_from_slice(&32u16.to_le_bytes());
    ivrs[52..54].copy_from_slice(&0x0100u16.to_le_bytes());
    ivrs[54..56].copy_from_slice(&0x40u16.to_le_bytes());
    ivrs[56..64].copy_from_slice(&(0xfed8_0000u64).to_le_bytes());
    ivrs[64..66].copy_from_slice(&2u16.to_le_bytes());
    ivrs[66..68].copy_from_slice(&0x55u16.to_le_bytes());
    ivrs[68..72].copy_from_slice(&0xa5a5u32.to_le_bytes());

    ivrs[72] = 0x02;
    ivrs[74..76].copy_from_slice(&0x210u16.to_le_bytes());
    ivrs[76] = 0x02;
    ivrs[78..80].copy_from_slice(&0x211u16.to_le_bytes());

    finish_sdt_checksum(&mut ivrs);

    let table = IvrsTable::parse(&ivrs).unwrap();
    assert_eq!(table.ivinfo().unwrap(), 0x1234);

    let blocks = table.blocks().collect().unwrap();
    assert!(
        matches!(blocks.as_slice(), [IvrsBlock::Ivhd(unit)] if unit.segment() == 2 && unit.coherent())
    );

    let windows = table
        .ivhd_bdf_ranges(registers(0xfed8_0000))
        .unwrap()
        .unwrap();
    assert_eq!(
        windows.as_slice(),
        &[IvrsBdfRange::inclusive(Bdf::from_u16(0x210), Bdf::from_u16(0x211)).unwrap()]
    );
}

#[test]
fn parses_ivmd_reserved_memory() {
    let mut ivrs = [0u8; 72];
    write_sdt_header(&mut ivrs, 72);
    ivrs[48] = 0x21;
    ivrs[50..52].copy_from_slice(&24u16.to_le_bytes());
    ivrs[52..54].copy_from_slice(&0x320u16.to_le_bytes());
    ivrs[56..64].copy_from_slice(&(0x2000_0000u64).to_le_bytes());
    ivrs[64..72].copy_from_slice(&(0x2000u64).to_le_bytes());

    finish_sdt_checksum(&mut ivrs);

    let table = IvrsTable::parse(&ivrs).unwrap();
    let blocks = table.blocks().collect().unwrap();
    let IvrsBlock::Ivmd(memory) = blocks[0] else {
        panic!("expected IVMD");
    };

    assert!(memory.is_specified());
    assert_eq!(memory.device_id, Bdf::from_u16(0x320));
    assert_eq!(
        memory.memory,
        PhysAddrRange::from_start_size(PhysAddr::from_usize(0x2000_0000), 0x2000)
    );
    assert_eq!(memory.limit_address(), PhysAddr::from_usize(0x2000_1fff));
}

fn extended_table() -> [u8; 122] {
    let mut ivrs = [0u8; 122];
    write_sdt_header(&mut ivrs, 122);

    ivrs[48] = 0x11;
    ivrs[49] = 1 << 5;
    ivrs[50..52].copy_from_slice(&74u16.to_le_bytes());
    ivrs[52..54].copy_from_slice(&0x0100u16.to_le_bytes());
    ivrs[54..56].copy_from_slice(&0x40u16.to_le_bytes());
    ivrs[56..64].copy_from_slice(&(0xfed8_0000u64).to_le_bytes());
    ivrs[64..66].copy_from_slice(&2u16.to_le_bytes());
    ivrs[66..68].copy_from_slice(&0x55u16.to_le_bytes());
    ivrs[72..80].copy_from_slice(&0x1122_3344_5566_7788u64.to_le_bytes());

    ivrs[88] = 0x46;
    ivrs[89] = 0xaa;
    ivrs[90..92].copy_from_slice(&0x0123u16.to_le_bytes());
    ivrs[92..96].copy_from_slice(&0xdead_beefu32.to_le_bytes());

    ivrs[96] = 0xf0;
    ivrs[97..99].copy_from_slice(&0x00a5u16.to_le_bytes());
    ivrs[99] = 0x40;
    ivrs[100..108].copy_from_slice(b"AMDI0020");
    ivrs[108..116].copy_from_slice(&0u64.to_le_bytes());
    ivrs[116] = 2;
    ivrs[117] = 4;
    ivrs[118..122].copy_from_slice(b"ID01");

    finish_sdt_checksum(&mut ivrs);
    ivrs
}

#[test]
fn parses_extended_and_acpi_named_ivhd_entries() {
    let ivrs = extended_table();
    let table = IvrsTable::parse(&ivrs).unwrap();
    let blocks = table.blocks().collect().unwrap();
    let IvrsBlock::Ivhd(unit) = blocks[0] else {
        panic!("expected IVHD");
    };

    let entries = RefCell::new(Vec::new());
    let mut visitor = Visits::new(|entry| {
        entries.borrow_mut().push(entry);
        Ok(())
    });
    table
        .walk_device_entries(
            unit.block_offset,
            device_entries_offset(unit.block_type),
            unit.length,
            &mut visitor,
        )
        .unwrap();
    drop(visitor);
    let entries = entries.into_inner();

    assert!(matches!(entries[0], IvhdDeviceEntry::ExtendedSelect {
            device_id,
            data_setting: 0xaa,
            extended_data_setting: 0xdead_beef,
        } if device_id == Bdf::from_u16(0x0123)));
    assert!(matches!(entries[1], IvhdDeviceEntry::AcpiNamed {
            device_id,
            data_setting: 0x40,
            hardware_id,
            compatible_id: 0,
            uid_format: 2,
            uid,
        } if device_id == Bdf::from_u16(0x00a5)
            && hardware_id == u64::from_le_bytes(*b"AMDI0020")
            && uid == b"ID01"));

    let ranges = table
        .ivhd_bdf_ranges(registers(0xfed8_0000))
        .unwrap()
        .unwrap();
    assert_eq!(
        ranges.as_slice(),
        &[
            IvrsBdfRange::single(Bdf::from_u16(0x00a5)),
            IvrsBdfRange::single(Bdf::from_u16(0x0123)),
        ]
    );
}

#[test]
fn visits_units_and_reserved_memory() {
    let ivrs = extended_table();
    let table = IvrsTable::parse(&ivrs).unwrap();
    let units = RefCell::new(Vec::new());
    table
        .for_each_ivhd(|_, unit| {
            units.borrow_mut().push(unit.bdf());
            Ok(())
        })
        .unwrap();
    assert_eq!(units.into_inner(), vec![Bdf::from_u16(0x0100)]);
    let regions = RefCell::new(0usize);
    table
        .for_each_ivmd(|_| {
            *regions.borrow_mut() += 1;
            Ok(())
        })
        .unwrap();
    assert_eq!(regions.into_inner(), 0);
    let refused: Result<(), IvrsError> =
        table.for_each_block(|_| Err(IvrsError::Malformed("stop")));
    assert_eq!(refused, Err(IvrsError::Malformed("stop")));
    assert!(table.ivhd_bdf_ranges(registers(0xfed9_0000)).unwrap().is_none());
}

#[test]
fn rejects_broken_headers() {
    let good = extended_table();

    let mut wrong_sum = good;
    wrong_sum[9] = wrong_sum[9].wrapping_add(1);
    assert_eq!(
        IvrsTable::parse(&wrong_sum).err(),
        Some(IvrsError::Acpi(AcpiError::SdtInvalidChecksum(
            Signature::ivrs()
        )))
    );

    let mut wrong_name = good;
    wrong_name[0] = b'X';
    assert_eq!(
        IvrsTable::parse(&wrong_name).err(),
        Some(IvrsError::Acpi(AcpiError::SdtInvalidSignature(
            Signature::ivrs()
        )))
    );

    let mut wrong_oem = good;
    wrong_oem[10] = 0xff;
    assert_eq!(
        IvrsTable::parse(&wrong_oem).err(),
        Some(IvrsError::Acpi(AcpiError::SdtInvalidOemId(
            Signature::ivrs()
        )))
    );

    let mut wrong_table_id = good;
    wrong_table_id[16] = 0xff;
    assert_eq!(
        IvrsTable::parse(&wrong_table_id).err(),
        Some(IvrsError::Acpi(AcpiError::SdtInvalidTableId(
            Signature::ivrs()
        )))
    );

    assert!(IvrsTable::parse(&good[..100]).is_err());
    assert!(IvrsTable::parse(&[]).is_err());
}

#[test]
fn rejects_blocks_that_leave_the_table() {
    let mut ivrs = extended_table();
    ivrs[50..52].copy_from_slice(&200u16.to_le_bytes());
    finish_sdt_checksum(&mut ivrs);
    let table = IvrsTable::parse(&ivrs).unwrap();
    assert!(matches!(
        table.blocks().collect(),
        Err(IvrsError::Malformed(_))
    ));
    ivrs[50..52].copy_from_slice(&2u16.to_le_bytes());
    finish_sdt_checksum(&mut ivrs);
    let table = IvrsTable::parse(&ivrs).unwrap();
    assert!(table.blocks().collect().is_err());
}

#[test]
fn unit_and_memory_flags_have_their_places() {
    let ivrs = extended_table();
    let table = IvrsTable::parse(&ivrs).unwrap();
    let blocks = table.blocks().collect().unwrap();
    let IvrsBlock::Ivhd(unit) = blocks[0] else {
        panic!("expected IVHD");
    };
    assert!(unit.coherent());
    assert!(!unit.iotlb_support() && !unit.prefsup() && !unit.pprsup());

    for (kind, all, specified, range) in [
        (0x20u8, true, false, false),
        (0x21, false, true, false),
        (0x22, false, false, true),
    ] {
        let mut ivrs = [0u8; 72];
        write_sdt_header(&mut ivrs, 72);
        ivrs[48] = kind;
        ivrs[50..52].copy_from_slice(&24u16.to_le_bytes());
        ivrs[64..72].copy_from_slice(&(0x2000u64).to_le_bytes());
        finish_sdt_checksum(&mut ivrs);
        let table = IvrsTable::parse(&ivrs).unwrap();
        let blocks = table.blocks().collect().unwrap();
        let IvrsBlock::Ivmd(memory) = blocks[0] else {
            panic!("expected IVMD");
        };
        assert_eq!(memory.is_all_devices(), all);
        assert_eq!(memory.is_specified(), specified);
        assert_eq!(memory.is_range(), range);
    }
}

#[test]
fn device_entries_are_read_one_by_one() {
    let ivrs = extended_table();
    let table = IvrsTable::parse(&ivrs).unwrap();
    let blocks = table.blocks().collect().unwrap();
    let IvrsBlock::Ivhd(unit) = blocks[0] else {
        panic!("expected IVHD");
    };
    let mut entries = table.device_entries(unit);
    assert!(matches!(
        entries.next(),
        Some(Ok(IvhdDeviceEntry::ExtendedSelect { device_id, .. }))
            if device_id == Bdf::from_u16(0x123)
    ));
    assert!(matches!(
        entries.next(),
        Some(Ok(IvhdDeviceEntry::AcpiNamed { device_id, .. }))
            if device_id == Bdf::from_u16(0xa5)
    ));
    assert!(entries.next().is_none());
}

/// Hands the entries of a block to a callback that takes each.
fn walk(
    table: &IvrsTable,
    block_offset: usize,
    entries_offset: usize,
    block_length: usize,
) -> Result<(), IvrsError> {
    let mut visitor = Visits::new(|_| Ok(()));
    table.walk_device_entries(block_offset, entries_offset, block_length, &mut visitor)
}

#[test]
fn device_entries_that_leave_the_table_are_out_of_bounds() {
    let ivrs = extended_table();
    let table = IvrsTable::parse(&ivrs).unwrap();
    let out = Err(IvrsError::Malformed("IVRS table read is out of bounds"));
    assert_eq!(walk(&table, 200, 24, 48), out);
    assert_eq!(walk(&table, 118, 0, 8), out);
    assert_eq!(walk(&table, 96, 0, 100), out);
    assert_eq!(walk(&table, 0, usize::MAX - 1, usize::MAX), out);
    assert_eq!(walk(&table, usize::MAX, 4, 4), Ok(()));
}

#[test]
fn blocks_and_entries_are_handed_over_once_each() {
    let ivrs = extended_table();
    let table = IvrsTable::parse(&ivrs).unwrap();
    let blocks = table.blocks().collect().unwrap();
    let seen = RefCell::new(Vec::new());
    let mut visitor = Visits::new(|block: IvrsBlock| {
        seen.borrow_mut().push(block);
        Ok(())
    });
    table.visit_blocks(&mut visitor).unwrap();
    assert_eq!(*seen.borrow(), blocks);

    let IvrsBlock::Ivhd(unit) = blocks[0] else {
        panic!("expected IVHD");
    };
    let calls = RefCell::new(0usize);
    let mut refusing = Visits::new(|_: IvhdDeviceEntry| {
        *calls.borrow_mut() += 1;
        if *calls.borrow() == 2 {
            Err(IvrsError::Malformed("stop"))
        } else {
            Ok(())
        }
    });
    assert_eq!(
        table.walk_device_entries(
            unit.block_offset,
            device_entries_offset(unit.block_type),
            unit.length,
            &mut refusing,
        ),
        Err(IvrsError::Malformed("stop"))
    );
    assert_eq!(*calls.borrow(), 2);
}
