use kore_iommu::arch::x86_64::intel::{
    vtd_default_domain, VtdCapability, VtdDomain, VtdDomainActivation, VtdDomainControls, VtdError,
    VtdExtendedCapability, VtdIoDomain, VtdSecondLevelAddressWidth, VtdVersion,
};
use kore_iommu::memory::{PageSize, PagingError};
use kore_iommu::{CapabilityFlags, Error, PhysAddr, TranslationStage};

const CAP_MGAW_SHIFT: u64 = 16;
const CAP_SAGAW_SHIFT: u64 = 8;
const CAP_SLLPS_SHIFT: u64 = 34;
const ECAP_QI: u64 = 1 << 1;
const ECAP_DT: u64 = 1 << 2;
const ECAP_IR: u64 = 1 << 3;
const ECAP_PASID: u64 = 1 << 40;

#[test]
fn cap_decodes_address_widths_and_superpages() {
    let cap = VtdCapability::from_bits(
        (0b111_u64 << CAP_SAGAW_SHIFT) | (47_u64 << CAP_MGAW_SHIFT) | (0b0011_u64 << CAP_SLLPS_SHIFT),
    );

    assert_eq!(cap.max_guest_address_width(), 48);
    assert!(cap.supports_address_width(VtdSecondLevelAddressWidth::Bits39));
    assert!(cap.supports_address_width(VtdSecondLevelAddressWidth::Bits48));
    assert!(!cap.supports_address_width(VtdSecondLevelAddressWidth::Bits57));
    assert_eq!(
        cap.best_address_width(),
        Some(VtdSecondLevelAddressWidth::Bits48)
    );
    assert!(cap.supports_leaf_size(PageSize::Size2M));
    assert!(cap.supports_leaf_size(PageSize::Size1G));
}

#[test]
fn ecap_lifts_common_flags() {
    let ecap = VtdExtendedCapability::from_bits(ECAP_QI | ECAP_DT | ECAP_IR | ECAP_PASID);
    let flags = ecap.capability_flags();

    assert!(ecap.queued_invalidation());
    assert!(flags.contains(CapabilityFlags::translation()));
    assert!(flags.contains(CapabilityFlags::pasid()));
    assert!(flags.contains(CapabilityFlags::device_tlb()));
    assert!(flags.contains(CapabilityFlags::interrupt_remapping()));
    assert!(!flags.contains(CapabilityFlags::nested_translation()));
    assert_eq!(flags.bits(), 0x1b);
}

#[test]
fn version_splits_major_and_minor() {
    let version = VtdVersion::from_bits(0x23);
    assert_eq!(version.major(), 2);
    assert_eq!(version.minor(), 3);
}

#[test]
fn vtd_domain_is_the_common_domain_value() {
    let domain = VtdIoDomain::new(0x1234, 7).unwrap();

    assert_eq!(domain.id(), 0x1234);
    assert_eq!(domain.generation(), 7);
    assert_eq!(vtd_default_domain().id(), 1);
}

#[test]
fn domain_activation_installs_second_level_root_token() {
    let activation = VtdDomainActivation;
    let controls =
        VtdDomainControls::new(vtd_default_domain(), VtdSecondLevelAddressWidth::Bits48);
    let token = activation
        .install(PhysAddr::from(0x4000usize), controls)
        .unwrap();
    let domain = token.domain();

    assert_eq!(token.root(), PhysAddr::from(0x4000usize));
    assert_eq!(token.controls(), controls);
    assert_eq!(domain.id(), vtd_default_domain());
    assert_eq!(domain.root(), PhysAddr::from(0x4000usize));
    assert_eq!(domain.width(), VtdSecondLevelAddressWidth::Bits48);
    assert_eq!(domain.stage(), TranslationStage::Stage2);
    assert_eq!(VtdDomain::from(token), domain);
    assert_eq!(domain.controls(), controls);
}

#[test]
fn domain_activation_rejects_unaligned_roots() {
    let activation = VtdDomainActivation;
    let controls =
        VtdDomainControls::new(vtd_default_domain(), VtdSecondLevelAddressWidth::Bits39);

    assert_eq!(
        activation.install(PhysAddr::from(0x1234usize), controls),
        Err(PagingError::NotAligned)
    );
}

#[test]
fn stateless_domain_activation_does_not_publish_to_hardware() {
    let activation = VtdDomainActivation;
    let controls =
        VtdDomainControls::new(vtd_default_domain(), VtdSecondLevelAddressWidth::Bits39);
    let token = activation
        .install(PhysAddr::from(0x4000usize), controls)
        .unwrap();

    assert_eq!(
        activation.activate(token),
        Err(PagingError::InvalidMappingShape)
    );
}

#[test]
fn domain_numbers_stay_within_the_mask() {
    assert_eq!(VtdIoDomain::new(0x1_0000, 0), Err(Error::InvalidAddressSpace));
    assert_eq!(VtdIoDomain::from_asid(0xffff).unwrap().id(), 0xffff);
    assert_eq!(VtdIoDomain::from_asid(5).unwrap().generation(), 0);
}

#[test]
fn capability_fields_have_exact_values() {
    let cap = VtdCapability::from_bits(
        (0x3f_u64 << 16) | (0x22_u64 << 24) | (1 << 39) | (7_u64 << 40) | (18_u64 << 48) | (1 << 54),
    );
    assert_eq!(cap.max_guest_address_width(), 64);
    assert_eq!(cap.fault_record_register_offset(), 0x220);
    assert_eq!(cap.fault_record_count(), 8);
    assert_eq!(cap.max_address_mask_value(), 18);
    assert_eq!(cap.page_selective_address_mask(PageSize::Size4K), Some(0));
    assert_eq!(cap.page_selective_address_mask(PageSize::Size2M), Some(9));
    assert_eq!(cap.page_selective_address_mask(PageSize::Size1G), Some(18));
    assert_eq!(cap.page_selective_address_mask(PageSize::Size64K), None);
    assert!(cap.write_draining());
    assert!(!cap.read_draining());
    assert_eq!(cap.best_address_width(), None);
    assert!(cap.supports_leaf_size(PageSize::Size4K));
    assert!(!cap.supports_leaf_size(PageSize::Size2M));
    assert_eq!(u64::from(VtdCapability::from(9)), 9);
}

#[test]
fn extended_capability_fields_have_exact_values() {
    let ecap = VtdExtendedCapability::from_bits((0x50 << 8) | (0xf << 20) | (0x13 << 35) | (1 << 45));
    assert_eq!(ecap.iotlb_register_offset(), 0x500);
    assert_eq!(ecap.max_handle_mask_value(), 15);
    assert_eq!(ecap.pasid_bits(), 20);
    assert!(ecap.second_level_accessed_dirty());
    assert_eq!(ecap.capability_flags().bits(), 0x81);
}

#[test]
fn vtd_errors_collapse_into_common_ones() {
    assert_eq!(
        Error::from(VtdError::UnsupportedAddressWidth),
        Error::InvalidWidth
    );
    assert_eq!(Error::from(VtdError::UnsupportedGranule), Error::InvalidGranule);
    assert_eq!(
        Error::from(VtdError::PageSelectiveInvalidationUnavailable),
        Error::FeatureUnavailable
    );
    assert_eq!(
        Error::from(VtdError::InvalidDomainId),
        Error::InvalidAddressSpace
    );
    assert_eq!(Error::from(VtdError::InvalidSourceId), Error::InvalidClient);
    assert_eq!(
        Error::from(VtdError::RegisterTransitionTimeout),
        Error::ControllerUnavailable
    );
}

#[test]
fn capability_bits_have_their_places() {
    let zero = VtdCapability::from_bits(0);
    let bit = |index: u32| VtdCapability::from_bits(1 << index);
    assert!(bit(22).zero_length_read() && !zero.zero_length_read());
    assert!(bit(39).page_selective_invalidation() && !zero.page_selective_invalidation());
    assert!(bit(54).write_draining() && !zero.write_draining());
    assert!(bit(55).read_draining() && !zero.read_draining());
    assert!(bit(56).first_level_1g_page() && !zero.first_level_1g_page());
    assert!(bit(59).posted_interrupts() && !zero.posted_interrupts());
    assert!(bit(60).first_level_5_level_paging() && !zero.first_level_5_level_paging());
    assert_eq!(VtdCapability::from_bits(0x1f << 8).supported_agaw_mask(), 0x1f);
    assert_eq!(VtdCapability::from_bits(0xf << 34).superpage_mask(), 0xf);
    for width in [
        VtdSecondLevelAddressWidth::Bits39,
        VtdSecondLevelAddressWidth::Bits48,
        VtdSecondLevelAddressWidth::Bits57,
    ] {
        let cap = VtdCapability::from_bits(u64::from(width.sagaw_bit()) << 8);
        assert!(cap.supports_address_width(width));
        assert_eq!(cap.best_address_width(), Some(width));
    }
}

#[test]
fn extended_capability_bits_have_their_places() {
    let zero = VtdExtendedCapability::from_bits(0);
    let bit = |index: u32| VtdExtendedCapability::from_bits(1 << index);
    assert!(bit(0).coherent_page_walks() && !zero.coherent_page_walks());
    assert!(bit(1).queued_invalidation() && !zero.queued_invalidation());
    assert!(bit(2).device_tlb() && !zero.device_tlb());
    assert!(bit(3).interrupt_remapping() && !zero.interrupt_remapping());
    assert!(bit(4).extended_interrupt_mode() && !zero.extended_interrupt_mode());
    assert!(bit(6).pass_through() && !zero.pass_through());
    assert!(bit(7).snoop_control() && !zero.snoop_control());
    assert!(bit(25).memory_type_support() && !zero.memory_type_support());
    assert!(bit(26).nested_translation() && !zero.nested_translation());
    assert!(bit(29).page_requests() && !zero.page_requests());
    assert!(bit(30).execute_requests() && !zero.execute_requests());
    assert!(bit(31).supervisor_requests() && !zero.supervisor_requests());
    assert!(bit(33).no_write_flag() && !zero.no_write_flag());
    assert!(bit(34).extended_accessed_flag() && !zero.extended_accessed_flag());
    assert!(bit(40).pasid() && !zero.pasid());
    assert!(bit(41).device_tlb_invalidation_throttle());
    assert!(bit(42).page_request_draining());
    assert!(bit(43).scalable_mode());
    assert!(bit(46).second_level_translation());
    assert!(bit(47).first_level_translation());
}
