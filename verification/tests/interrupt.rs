use kore_iommu::arch::x86_64::{
    X86InterruptVector, X86MsiDelivery, X86MsiDeliveryMode, X86MsiDestination, X86MsiLevel,
    X86MsiTriggerMode,
};
use kore_iommu::{Error, MsiMessage};

#[test]
fn rejects_exception_vectors_for_msi_delivery() {
    assert_eq!(X86InterruptVector::new(31), Err(Error::InvalidRange));
    assert_eq!(X86InterruptVector::new(32).unwrap().get(), 32);
}

#[test]
fn fixed_physical_delivery_encodes_apic_msi_message() {
    let message = X86MsiDelivery::fixed(
        X86MsiDestination::Physical(0x2a),
        X86InterruptVector::new(0x45).unwrap(),
    )
    .message();

    assert_eq!(message.address(), 0xfee2_a000);
    assert_eq!(message.data(), 0x4045);
}

#[test]
fn logical_lowest_priority_delivery_sets_route_bits() {
    let message = X86MsiDelivery::new(
        X86MsiDestination::Logical(0x03),
        X86InterruptVector::new(0x80).unwrap(),
        X86MsiDeliveryMode::LowestPriority,
    )
    .with_trigger_mode(X86MsiTriggerMode::Level)
    .with_redirection_hint(true)
    .message();

    assert_eq!(message.address(), 0xfee0_300c);
    assert_eq!(message.data(), 0xc180);
}

#[test]
fn deasserted_message_clears_the_level_bit() {
    let delivery = X86MsiDelivery::fixed(
        X86MsiDestination::Physical(1),
        X86InterruptVector::new(0x20).unwrap(),
    )
    .with_level(X86MsiLevel::Deassert);
    let message: MsiMessage = delivery.into();
    assert_eq!(message, MsiMessage::new(0xfee0_1000, 0x20));
}

#[test]
fn delivery_modes_have_their_codes() {
    let codes: Vec<u8> = [
        X86MsiDeliveryMode::Fixed,
        X86MsiDeliveryMode::LowestPriority,
        X86MsiDeliveryMode::Smi,
        X86MsiDeliveryMode::Nmi,
        X86MsiDeliveryMode::Init,
        X86MsiDeliveryMode::ExtInt,
    ]
    .iter()
    .map(|mode| mode.code())
    .collect();
    assert_eq!(codes, vec![0, 1, 2, 4, 5, 7]);
}

#[test]
fn first_external_vector_is_accepted() {
    assert_eq!(X86InterruptVector::MIN_EXTERNAL, 32);
    let vector = X86InterruptVector::new(X86InterruptVector::MIN_EXTERNAL).unwrap();
    assert_eq!(vector.get(), 32);
}
