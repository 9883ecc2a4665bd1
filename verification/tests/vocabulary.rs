use kore_iommu::addr::{IoPort, IoPortRange};
use kore_iommu::ctrl::{flush_addresses, IoTlbInvalidation, TlbInvalidation};
use kore_iommu::firm::pcie::{BdfRangeError, BdfRangeSetError, PciAddress, PciDeviceError};
use kore_iommu::memory::{AccessFlags, MemoryAttributes, PageSize, PagingError};
use kore_iommu::{
    Bdf, BdfRange, BdfRangeSet, Binding, BindingSelector, BindingTarget, CapabilityFlags,
    ControllerKind, DmaAttrs, Error, FaultEventConfig, InterruptMessage, InterruptRoute, IommuInfo,
    IoviAddr, MmioAddr, MmioAddrRange, MmioRange, MsiMessage, NoIoTlbFlush, PciDevice, PhysAddr,
    PhysAddrRange, ReservedRegion, TranslationStage,
};

#[test]
fn port_arithmetic_stops_at_the_ends() {
    let port = IoPort::new(0xfff0);
    assert_eq!(port.checked_add(0xf), Some(IoPort::new(0xffff)));
    assert_eq!(port.checked_add(0x10), None);
    assert_eq!(IoPort::new(3).checked_sub(3), Some(IoPort::new(0)));
    assert_eq!(IoPort::new(3).checked_sub(4), None);
    assert_eq!(IoPort::new(0x100).checked_mul(0x100), None);
    assert_eq!(IoPort::new(0x100).checked_mul(0xff), Some(IoPort::new(0xff00)));
    assert_eq!(IoPort::new(0x100).checked_div(0), None);
    assert_eq!(IoPort::new(0x100).checked_div(3), Some(IoPort::new(0x55)));

    let range = IoPortRange::from_start_size(IoPort::new(0x3f8), 8).unwrap();
    assert_eq!(range.size(), 8);
    assert!(range.contains(IoPort::new(0x3ff)));
    assert!(!range.contains(IoPort::new(0x400)));
    assert!(IoPortRange::from_start_size(IoPort::new(0xfff8), 9).is_none());
}

#[test]
fn identities_reject_numbers_out_of_range() {
    assert_eq!(Bdf::new(0, 32, 0), Err(PciDeviceError::DeviceOutOfRange));
    assert_eq!(Bdf::new(0, 0, 8), Err(PciDeviceError::FunctionOutOfRange));
    let device = PciDevice::new(2, 3, 4, 5).unwrap();
    assert_eq!(device.as_u32(), 0x2_0325);
    assert_eq!(device.as_addr(), PciAddress::new(2, 3, 4, 5));
    assert_eq!(PciDevice::from_address(device.as_addr()), Ok(device));
}

#[test]
fn full_range_set_reports_capacity() {
    let mut set = BdfRangeSet::<2>::empty();
    for id in [1u16, 10] {
        set.insert_single::<BdfRangeSetError>(Bdf::from_u16(id))
            .unwrap();
    }
    assert_eq!(
        set.add_range(BdfRange::single(Bdf::from_u16(20))),
        Err(BdfRangeSetError::Full)
    );
    assert_eq!(set.add_range(BdfRange::single(Bdf::from_u16(2))), Ok(()));
    assert_eq!(set.len(), 2);
    assert_eq!(
        BdfRange::inclusive(Bdf::from_u16(5), Bdf::from_u16(4)),
        Err(BdfRangeError::Reversed)
    );
}

#[test]
fn capability_flags_combine() {
    let mut flags = CapabilityFlags::translation() | CapabilityFlags::ats();
    assert!(flags.contains(CapabilityFlags::ats()));
    flags |= CapabilityFlags::page_requests();
    assert_eq!(flags.bits(), 0x45);
    flags &= CapabilityFlags::ats();
    assert_eq!(flags, CapabilityFlags::ats());
    assert!(CapabilityFlags::empty().contains(CapabilityFlags::default()));
}

#[test]
fn descriptors_hand_back_their_parts() {
    let mmio = <MmioAddrRange as MmioRange<usize>>::from_start_size(MmioAddr::from(0x1000), 0x1000)
        .unwrap();
    let info = IommuInfo::new(
        ControllerKind::AmdVi,
        Some(1),
        mmio,
        CapabilityFlags::translation(),
        TranslationStage::Nested,
    );
    assert_eq!(info.kind(), ControllerKind::AmdVi);
    assert_eq!(info.segment(), Some(1));
    assert_eq!(info.mmio(), mmio);
    assert_eq!(info.stage(), TranslationStage::Nested);

    let range = PhysAddrRange::from_start_size(PhysAddr::from_usize(0x5000), 0x1000);
    let region = ReservedRegion::new(range, Some(Bdf::from_u16(3)));
    assert_eq!(region.range(), range);
    assert_eq!(region.client(), Some(Bdf::from_u16(3)));

    let attrs = DmaAttrs::new(AccessFlags::read(), MemoryAttributes::writeback());
    assert_eq!(attrs.access(), AccessFlags::read());
    let binding = Binding::new(7u8, BindingSelector::default(), BindingTarget::Domain(9u8));
    assert_eq!(binding.client(), 7);
    assert_eq!(binding.selector(), BindingSelector::Default);
    assert_eq!(binding.target(), BindingTarget::Domain(9));
}

#[test]
fn fault_event_config_gives_a_route() {
    let message = InterruptMessage::new(0xfee0_0000, 0x31);
    assert_eq!(
        FaultEventConfig::new(message, true).route(),
        InterruptRoute::Msi(MsiMessage::new(0xfee0_0000, 0x31))
    );
    assert_eq!(
        FaultEventConfig::new(message, false).route(),
        InterruptRoute::Disabled
    );
}

#[test]
fn flushes_walk_their_pages() {
    assert_eq!(flush_addresses(0x1000, 0x1000, 3), vec![0x1000, 0x2000, 0x3000]);
    assert_eq!(
        flush_addresses(usize::MAX - 0x1000, 0x1000, 3),
        vec![usize::MAX - 0x1000, usize::MAX, usize::MAX]
    );
    assert!(flush_addresses(0, 0x1000, 0).is_empty());
}

struct Recorder(std::cell::RefCell<Vec<usize>>);

impl TlbInvalidation<IoviAddr<u64>> for Recorder {
    fn flush_tlb_local(&self, _vaddr: IoviAddr<u64>) {}

    fn flush_tlb_all_local(&self) {}

    fn flush_tlb_range_local(&self, _start: IoviAddr<u64>, _size: PageSize, _count: usize) {}

    fn prefer_full_flush(&self, pending_count: usize) -> bool {
        pending_count > 32
    }
}

impl IoTlbInvalidation<IoviAddr<u64>> for Recorder {
    type Client = u8;

    fn flush_iotlb(&self, iova: IoviAddr<u64>) {
        self.0.borrow_mut().push(iova.as_usize());
    }

    fn flush_iotlb_all(&self) {}

    fn flush_device_tlb(&self, client: u8, iova: IoviAddr<u64>) {
        self.0.borrow_mut().push(iova.as_usize() + client as usize);
    }

    fn flush_device_tlb_all(&self, _client: u8) {}
}

#[test]
fn default_range_flush_flushes_page_by_page() {
    let recorder = Recorder(std::cell::RefCell::new(Vec::new()));
    recorder.flush_iotlb_range(IoviAddr::<u64>::from(0x20_0000), PageSize::Size2M, 2);
    recorder.flush_device_tlb_range(5, IoviAddr::<u64>::from(0x1000), PageSize::Size4K, 2);
    assert_eq!(
        *recorder.0.borrow(),
        vec![0x20_0000, 0x40_0000, 0x1005, 0x2005]
    );
    assert!(recorder.prefer_full_iotlb_flush(33));
    assert!(!recorder.prefer_full_iotlb_flush(32));
    let none: NoIoTlbFlush = NoIoTlbFlush::new();
    assert!(!IoTlbInvalidation::<IoviAddr<u64>>::prefer_full_iotlb_flush(&none, 1000));
    assert!(!TlbInvalidation::<IoviAddr<u64>>::prefer_full_flush(&none, 1000));
}

#[test]
fn paging_errors_are_kept() {
    assert_eq!(
        Error::from(PagingError::NotAligned),
        Error::PageTable(PagingError::NotAligned)
    );
}
