use kore_iommu::addr::PhysAddr;
use kore_iommu::arch::x86_64::activation::{
    Cr0Flags, Cr3Flags, Cr4Flags, X86ControlWrite, X86Cr3Mode, X86Cr3Read, X86Cr3Value,
    X86PagingActivation, X86PagingControls,
};
use kore_iommu::memory::PagingError;

fn no_cr3_flags() -> Cr3Flags {
    Cr3Flags::from_bits(x86_64::registers::control::Cr3Flags::empty().bits())
}

fn pae() -> Cr4Flags {
    Cr4Flags::from_bits(x86_64::registers::control::Cr4Flags::PHYSICAL_ADDRESS_EXTENSION.bits())
}

fn paging() -> Cr0Flags {
    Cr0Flags::from_bits((x86_64::registers::control::Cr0Flags::PAGING | x86_64::registers::control::Cr0Flags::WRITE_PROTECT).bits())
}

#[test]
fn install_validates_cr3_root_alignment() {
    let activation = X86PagingActivation::legacy(no_cr3_flags());
    assert_eq!(
        activation.install(PhysAddr::from(0x1234usize)),
        Err(PagingError::NotAligned)
    );

    let token = activation.install(PhysAddr::from(0x4000usize)).unwrap();
    assert_eq!(token.root(), PhysAddr::from(0x4000usize));
    assert_eq!(token.cr3(), X86Cr3Mode::Flags(no_cr3_flags()));
}

#[test]
fn pcid_mode_is_carried_into_installed_tokens() {
    let pcid = x86_64::instructions::tlb::Pcid::new(7).unwrap();
    let activation = X86PagingActivation::pcid(pcid, true);
    let token = activation.install(PhysAddr::from(0x8000usize)).unwrap();

    assert_eq!(
        token.cr3(),
        X86Cr3Mode::Pcid {
            pcid,
            preserve_tlb_entries: true
        }
    );
}

#[test]
fn activation_carries_cr0_and_cr4_controls() {
    let controls = X86PagingControls::legacy(no_cr3_flags())
        .with_cr4(pae())
        .with_cr0(paging());
    let activation = X86PagingActivation::new(controls);

    let token = activation.install(PhysAddr::from(0xc000usize)).unwrap();
    assert_eq!(token.controls(), controls);
    assert_eq!(token.controls().cr4(), Some(pae()));
    assert_eq!(token.controls().cr0(), Some(paging()));
}

#[test]
fn install_rejects_roots_outside_the_physical_address_space() {
    let activation = X86PagingActivation::legacy(no_cr3_flags());
    assert_eq!(
        activation.install(PhysAddr::from(1usize << 52)),
        Err(PagingError::AddressOutOfRange)
    );
    let last = (1usize << 52) - 0x1000;
    assert_eq!(
        activation.install(PhysAddr::from(last)).unwrap().root(),
        PhysAddr::from(last)
    );
}

#[test]
fn activation_writes_cr4_then_cr3_then_cr0() {
    let activation = X86PagingActivation::legacy(no_cr3_flags())
        .with_cr4(pae())
        .with_cr0(paging());
    let token = activation.install(PhysAddr::from(0xc000usize)).unwrap();
    let load = X86ControlWrite::Cr3 {
        frame: 0xc000,
        mode: X86Cr3Mode::Flags(no_cr3_flags()),
    };
    assert_eq!(
        activation.activate(token).unwrap(),
        vec![
            X86ControlWrite::Cr4(pae()),
            load,
            X86ControlWrite::Cr0(paging())
        ]
    );

    let bare = X86PagingActivation::new(token.controls().without_cr0().without_cr4());
    let token = bare.install(PhysAddr::from(0xc000usize)).unwrap();
    assert_eq!(bare.activate(token).unwrap(), vec![load]);
}

#[test]
fn current_token_takes_tlb_policy_from_the_activation() {
    let pcid = x86_64::instructions::tlb::Pcid::new(9).unwrap();
    let activation = X86PagingActivation::pcid(x86_64::instructions::tlb::Pcid::new(1).unwrap(), true);
    let token = activation.current(paging(), 0x5000, X86Cr3Value::Pcid(pcid), pae());
    assert_eq!(token.root(), PhysAddr::from(0x5000usize));
    assert_eq!(
        token.cr3(),
        X86Cr3Mode::Pcid {
            pcid,
            preserve_tlb_entries: true
        }
    );
    assert_eq!(token.controls().cr0(), Some(paging()));
    assert_eq!(token.controls().cr4(), Some(pae()));
}

#[test]
fn cr3_is_read_in_the_way_it_is_written() {
    let pcid = x86_64::instructions::tlb::Pcid::new(1).unwrap();
    assert_eq!(
        X86PagingActivation::pcid(pcid, false).cr3_read(),
        X86Cr3Read::Pcid
    );
    assert_eq!(
        X86PagingActivation::legacy(no_cr3_flags()).cr3_read(),
        X86Cr3Read::Flags
    );
}
