use kore_iommu::firm::acpi::{
    table_bytes, validate_header, AcpiError, AcpiTableBytesError, SdtBytes, SdtFault, Signature,
};

fn table(length: usize) -> Vec<u8> {
    let mut bytes = vec![0u8; length];
    bytes[0..4].copy_from_slice(b"DMAR");
    bytes[4..8].copy_from_slice(&(length as u32).to_le_bytes());
    bytes[length - 8..].copy_from_slice(&[1, 2, 3, 4, 5, 6, 7, 8]);
    finish(&mut bytes);
    bytes
}

fn finish(bytes: &mut [u8]) {
    bytes[9] = 0;
    bytes[9] = 0u8.wrapping_sub(bytes.iter().fold(0, |sum: u8, byte| sum.wrapping_add(*byte)));
}

#[test]
fn bounded_reads_are_little_endian() {
    let bytes = table(44);
    let sdt = SdtBytes::new(&bytes, Signature::dmar()).unwrap();
    assert_eq!(sdt.len(), 44);
    assert_eq!(sdt.bytes(), &bytes[..]);
    assert_eq!(sdt.read_u8(36), Ok(1));
    assert_eq!(sdt.read_u16(36), Ok(0x0201));
    assert_eq!(sdt.read_u32(36), Ok(0x0403_0201));
    assert_eq!(sdt.read_u64(36), Ok(0x0807_0605_0403_0201));
}

#[test]
fn reads_past_the_table_are_truncated() {
    let bytes = table(44);
    let sdt = SdtBytes::new(&bytes, Signature::dmar()).unwrap();
    let truncated = |needed| AcpiTableBytesError::Truncated {
        needed,
        available: 44,
    };
    assert_eq!(sdt.read_u8(44), Err(truncated(45)));
    assert_eq!(sdt.read_u8(usize::MAX), Err(truncated(usize::MAX)));
    assert_eq!(sdt.read_u16(43), Err(truncated(45)));
    assert_eq!(sdt.read_u32(41), Err(truncated(45)));
    assert_eq!(sdt.read_u64(37), Err(truncated(45)));
    assert_eq!(
        sdt.read_u64(usize::MAX - 3),
        Err(AcpiTableBytesError::Malformed("ACPI read offset overflow"))
    );
}

#[test]
fn reader_reports_each_header_fault() {
    let mut bytes = table(44);
    assert_eq!(
        SdtBytes::new(&bytes[..35], Signature::dmar()).unwrap_err(),
        AcpiTableBytesError::Truncated {
            needed: 36,
            available: 35
        }
    );
    assert_eq!(
        SdtBytes::new(&bytes, Signature::ivrs()).unwrap_err(),
        AcpiTableBytesError::WrongSignature {
            expected: Signature::ivrs(),
            found: *b"DMAR"
        }
    );
    assert_eq!(
        SdtBytes::new(&bytes[..40], Signature::dmar()).unwrap_err(),
        AcpiTableBytesError::LengthExceedsBuffer {
            declared: 44,
            available: 40
        }
    );
    bytes[4] = 35;
    assert_eq!(
        SdtBytes::new(&bytes, Signature::dmar()).unwrap_err(),
        AcpiTableBytesError::Malformed("ACPI table length is shorter than the SDT header")
    );
}

#[test]
fn whole_tables_are_checked_in_order() {
    let mut bytes = table(44);
    assert_eq!(table_bytes(&bytes, Signature::dmar()), Ok(&bytes[..]));
    let mut longer = bytes.clone();
    longer.push(0xff);
    assert_eq!(table_bytes(&longer, Signature::dmar()), Ok(&bytes[..]));
    assert_eq!(
        table_bytes(&bytes[..20], Signature::dmar()),
        Err(SdtFault::ShortHeader)
    );
    assert_eq!(
        table_bytes(&bytes, Signature::iort()),
        Err(SdtFault::Acpi(AcpiError::SdtInvalidSignature(Signature::iort())))
    );
    assert_eq!(
        table_bytes(&bytes[..43], Signature::dmar()),
        Err(SdtFault::Length)
    );

    bytes[10] = 0xff;
    finish(&mut bytes);
    assert_eq!(
        validate_header(&bytes, Signature::dmar()),
        Err(AcpiError::SdtInvalidOemId(Signature::dmar()))
    );
    bytes[10] = 0x41;
    bytes[16] = 0xff;
    finish(&mut bytes);
    assert_eq!(
        validate_header(&bytes, Signature::dmar()),
        Err(AcpiError::SdtInvalidTableId(Signature::dmar()))
    );
    bytes[16] = 0x41;
    finish(&mut bytes);
    assert_eq!(validate_header(&bytes, Signature::dmar()), Ok(()));
    bytes[43] = 9;
    assert_eq!(
        validate_header(&bytes, Signature::dmar()),
        Err(AcpiError::SdtInvalidChecksum(Signature::dmar()))
    );
}
