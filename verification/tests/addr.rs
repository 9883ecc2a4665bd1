use kore_iommu::addr::{
    AddrRange, IoPort, IoPortRange, IoviAddr, MmioAddr, MmioAddrRange, MmioRange, PhysAddr,
    PhysAddrRange, Unsigned, VirtAddr, VirtAddrRange,
};

fn assert_mmio_round_trips<T: Unsigned>(samples: &[usize]) {
    for &value in samples {
        let addr = MmioAddr::<T>::from_usize(value);
        let round_trip: usize = addr.into();
        assert_eq!(round_trip, value);

        let phys = PhysAddr::from_usize(value);
        let addr = MmioAddr::<T>::from_phys(phys);
        assert_eq!(addr.as_phys().as_usize(), value);
    }
}

fn assert_iovi_round_trips<T: Unsigned>(samples: &[usize]) {
    for &value in samples {
        let addr = IoviAddr::<T>::from_usize(value);
        let round_trip: usize = addr.into();
        assert_eq!(round_trip, value);
    }
}

fn mmio_value<T: Unsigned>(addr: MmioAddr<T>) -> usize {
    addr.into()
}

#[test]
fn mmio_addr_u32_round_trips_representable_values() {
    assert_mmio_round_trips::<u32>(&[0, 1, 0x1000, 0xffff, u32::MAX as usize]);
}

#[test]
fn mmio_addr_u64_round_trips_representable_values() {
    assert_mmio_round_trips::<u64>(&[0, 1, 0x1000, 0xffff_ffff, usize::MAX]);
}

#[test]
fn iovi_addr_u32_round_trips_representable_values() {
    assert_iovi_round_trips::<u32>(&[0, 1, 0x1000, 0xffff, u32::MAX as usize]);
}

#[test]
fn iovi_addr_u64_round_trips_representable_values() {
    assert_iovi_round_trips::<u64>(&[0, 1, 0x1000, 0xffff_ffff, usize::MAX]);
}

#[test]
fn mmio_range_register_helpers_respect_bounds_and_alignment() {
    let range = MmioAddrRange::<u32>::new(
        MmioAddr::from_usize(0x1000),
        MmioAddr::from_usize(0x1040),
    );

    assert_eq!(mmio_value(range.reg8(0).unwrap()), 0x1000);
    assert_eq!(mmio_value(range.reg16(0x10).unwrap()), 0x1010);
    assert_eq!(mmio_value(range.reg32(0x20).unwrap()), 0x1020);
    assert_eq!(mmio_value(range.reg64(0x38).unwrap()), 0x1038);
    assert!(range.reg64(0x39).is_none());
    assert_eq!(
        range.to_phys_range(),
        PhysAddrRange::from_start_size(PhysAddr::from_usize(0x1000), 0x40)
    );

    assert_eq!(mmio_value(range.reg32_aligned(0x20).unwrap()), 0x1020);
    assert!(range.reg32_aligned(0x22).is_none());
}

#[test]
fn register_past_the_address_space_is_missing() {
    let range = MmioAddrRange::<usize>::new(
        MmioAddr::from_usize(usize::MAX - 0x10),
        MmioAddr::from_usize(usize::MAX),
    );
    assert_eq!(mmio_value(range.reg8(0xf).unwrap()), usize::MAX - 1);
    assert!(range.reg8(0x10).is_none());
    assert!(range.reg64(usize::MAX).is_none());
}

#[test]
fn range_size_counts_and_goes_round() {
    let range = PhysAddrRange::new(PhysAddr::from_usize(0x1000), PhysAddr::from_usize(0x3000));
    assert_eq!(range.size(), 0x2000);
    assert!(!range.is_empty());
    assert!(range.contains(PhysAddr::from_usize(0x1000)));
    assert!(range.contains(PhysAddr::from_usize(0x2fff)));
    assert!(!range.contains(PhysAddr::from_usize(0x3000)));

    let reversed = AddrRange {
        start: VirtAddr::from_usize(0x3000),
        end: VirtAddr::from_usize(0x1000),
    };
    assert_eq!(reversed.size(), usize::MAX - 0x1fff);
    assert!(reversed.is_empty());
}

#[test]
fn range_that_leaves_the_address_space_is_missing() {
    assert!(VirtAddrRange::try_from_start_size(VirtAddr::from_usize(usize::MAX), 1).is_none());
    assert_eq!(
        VirtAddrRange::try_from_start_size(VirtAddr::from_usize(usize::MAX - 1), 1)
            .unwrap()
            .end,
        VirtAddr::from_usize(usize::MAX)
    );
}

#[test]
fn checked_address_arithmetic_stops_at_the_end() {
    let addr = MmioAddr::<u64>::from_usize(0x1000);
    assert_eq!(addr.checked_add(0x1000).unwrap().as_usize(), 0x2000);
    assert!(addr.checked_add(usize::MAX).is_none());
    assert_eq!(addr.checked_mul(3).unwrap().as_usize(), 0x3000);
    assert!(addr.checked_mul(usize::MAX).is_none());
    assert!(addr.is_aligned(0x1000));
    assert!(!addr.is_aligned(0x2000));
    assert!(PhysAddr::from_usize(0x2000).is_aligned(0x1000));
    assert!(!PhysAddr::from_usize(0x2800).is_aligned(0x1000));
}

#[test]
fn register_past_the_representation_is_missing() {
    let range = MmioAddrRange::<u32>::new(
        MmioAddr::from_usize(0xffff_fff0),
        MmioAddr::from_usize(0xffff_ffff),
    );
    assert_eq!(mmio_value(range.reg8(0xe).unwrap()), 0xffff_fffe);
    assert!(range.reg8(0xf).is_none());
    assert!(range.reg16(0xf).is_none());
    assert!(range.reg32(0x1000).is_none());
    assert!(range.reg64(usize::MAX).is_none());
    assert!(range.reg32_aligned(0x10).is_none());
}
