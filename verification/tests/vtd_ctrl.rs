use std::cell::{Cell, RefCell};

use kore_iommu::arch::x86_64::intel::ctrl::{
    clear_fault_status, clear_primary_fault, decode_fault_status, decode_primary_fault,
    global_command, poll_fault, poll_outcome, poll_primary_fault, prefer_full_flush,
    primary_fault_offsets, queued_invalidation_table_address, write_context_entry,
    write_interrupt_remap_entry, write_root_entry, RegisterStep, VtdContextEntry,
    VtdContextTableBacking, VtdFaultPoll,
    VtdFaultReason, VtdInterruptEntry, VtdInterruptRemapEntry, VtdInterruptRemapTableBacking,
    VtdInterruptRemapTarget, VtdInvalidationPlan, VtdIotlbRangeBlock, VtdIotlbRangePlan,
    VtdQueuedInvalidationDescriptor, VtdQueuedInvalidationQueue, VtdRegisterWindow, VtdRootEntry,
    VtdRootTableBacking, VtdUnit, CONTEXT_TRANSLATION_TYPE_MULTI_LEVEL,
    CONTEXT_TRANSLATION_TYPE_PASS_THROUGH, FECTL_INTERRUPT_MASK, GCMD_QIE, GCMD_SIRTP, GCMD_SRTP,
    GCMD_TE, GSTS_IRTPS, GSTS_QIES, GSTS_RTPS, GSTS_TES,
    IOTLB_RANGE_DOMAIN_INVALIDATION_THRESHOLD, QI_ENTRY_BYTES, REG_FEADDR, REG_FECTL, REG_FEDATA,
    REG_FEUADDR, REG_FSTS, REG_IQA, REG_IQT, REG_IRTA, REG_RTADDR,
};
use kore_iommu::arch::x86_64::intel::{
    VtdCapability, VtdDomain, VtdExtendedCapability, VtdInfo, VtdIoDomain,
    VtdSecondLevelAddressWidth, VtdSecondLevelFlags, VtdSecondLevelPte,
};
use kore_iommu::arch::x86_64::{
    X86InterruptVector, X86MsiDelivery, X86MsiDeliveryMode, X86MsiDestination, X86MsiTriggerMode,
};
use kore_iommu::ctrl::TableWrite;
use kore_iommu::device::QueueCallbacks;
use kore_iommu::mapping::Mapping;
use kore_iommu::memory::PageSize;
use kore_iommu::poll::Poll;
use kore_iommu::queue::{CommandQueueBacking, SlotWrite};
use kore_iommu::{
    Bdf, Binding, BindingSelector, BindingTarget, DmaAccess, Error, InterruptRoute, Invalidate,
    InvalidateScope, IoviAddr, MmioAddr, MmioAddrRange, MmioRange, MsiMessage, PciDevice, PhysAddr,
    PhysAddrRange, TranslationStage, VirtAddr, VirtAddrRange,
};

const CAP_PSI: u64 = 1 << 39;
const CAP_MAMV_SHIFT: u64 = 48;
const ECAP_PT: u64 = 1 << 6;
const PAGE_ADDR_MASK: u64 = !0xfff_u64;
const IVA_AM_MASK: u64 = 0x3f;
const QI_IOTLB_DOMAIN: u64 = 2 << 4;
const QI_IOTLB_PAGE: u64 = 3 << 4;
const QI_IOTLB_DID_SHIFT: u64 = 16;
const QI_CC_SID_SHIFT: u64 = 32;
const IRTE_VECTOR_SHIFT: u64 = 16;
const IRTE_DESTINATION_SHIFT: u64 = 32;
const IRTE_DELIVERY_MODE_SHIFT: u64 = 5;
const IRTE_DESTINATION_MODE_LOGICAL: u64 = 1 << 2;
const IRTE_REDIRECTION_HINT: u64 = 1 << 3;
const IRTE_TRIGGER_MODE_LEVEL: u64 = 1 << 4;
const IRTE_SOURCE_VALIDATION_TYPE_SHIFT: u64 = 18;
const IRTE_SOURCE_VALIDATION_VERIFY_SOURCE_ID: u64 = 1;
const FSTS_AFO: u32 = 1 << 2;
const FSTS_PPF: u32 = 1 << 1;
const FRCDH_FAULT: u64 = 1 << 63;
const FRCDH_EXECUTE: u64 = 1 << 30;
const FRCDH_REASON_SHIFT: u64 = 32;

/// Simulated memory at a virtual base.
struct Memory {
    base: usize,
    bytes: RefCell<Vec<u8>>,
}

impl Memory {
    fn new(base: usize, len: usize) -> Self {
        Memory {
            base,
            bytes: RefCell::new(vec![0u8; len]),
        }
    }

    fn virt(&self) -> VirtAddrRange {
        VirtAddrRange::from_start_size(
            VirtAddr::from_usize(self.base),
            self.bytes.borrow().len(),
        )
    }

    fn phys(&self, base: usize) -> PhysAddrRange {
        PhysAddrRange::from_start_size(PhysAddr::from_usize(base), self.bytes.borrow().len())
    }

    fn store(&self, vaddr: VirtAddr, image: &[u8]) {
        let offset = vaddr.as_usize() - self.base;
        self.bytes.borrow_mut()[offset..offset + image.len()].copy_from_slice(image);
    }

    fn write_entry(&self, write: TableWrite) {
        self.store(write.vaddr, &write.low.to_le_bytes());
        self.store(
            VirtAddr::from_usize(write.vaddr.as_usize() + 8),
            &write.high.to_le_bytes(),
        );
    }

    fn write_slot(&self, write: SlotWrite) {
        self.store(write.vaddr, &write.image);
    }

    fn words(&self, vaddr: VirtAddr) -> (u64, u64) {
        let offset = vaddr.as_usize() - self.base;
        let bytes = self.bytes.borrow();
        (
            u64::from_le_bytes(bytes[offset..offset + 8].try_into().unwrap()),
            u64::from_le_bytes(bytes[offset + 8..offset + 16].try_into().unwrap()),
        )
    }
}

fn mmio_range(base: usize, size: usize) -> MmioAddrRange {
    <MmioAddrRange as MmioRange<usize>>::from_start_size(MmioAddr::from(base), size).unwrap()
}

fn queue_backing(memory: &Memory, phys_base: usize, entries: usize) -> CommandQueueBacking {
    CommandQueueBacking::new(
        memory.phys(phys_base),
        memory.virt(),
        entries,
        QI_ENTRY_BYTES,
    )
    .unwrap()
}

fn register_window() -> VtdRegisterWindow<VtdSecondLevelPte> {
    VtdRegisterWindow::new(Mapping::new(
        VirtAddrRange::from_start_size(VirtAddr::from_usize(0x9000_0000), 0x1000),
        PhysAddr::from_usize(0xfee0_0000),
        VtdSecondLevelFlags::default(),
    ))
}

fn unit_info(segment: Option<u16>, cap: u64, ecap: u64) -> VtdInfo {
    VtdInfo::from_registers(
        segment,
        mmio_range(0xfee0_0000, PageSize::Size4K.bytes()),
        0x10,
        Some(48),
        cap,
        ecap,
        true,
    )
}

fn root_memory() -> Memory {
    Memory::new(0x7100_0000, 0x1000)
}

fn context_memory() -> Memory {
    Memory::new(0x7200_0000, 0x1000)
}

fn root_table(memory: &Memory) -> VtdRootTableBacking {
    VtdRootTableBacking::new(memory.phys(0x4000), memory.virt()).unwrap()
}

fn context_table(memory: &Memory) -> VtdContextTableBacking {
    VtdContextTableBacking::new(memory.phys(0x8000), memory.virt()).unwrap()
}

fn domain(id: u32, root: usize) -> VtdDomain {
    VtdDomain::new(
        VtdIoDomain::from_asid(id).unwrap(),
        PhysAddr::from_usize(root),
        VtdSecondLevelAddressWidth::Bits48,
        TranslationStage::Stage2,
    )
}

fn read_root_entry(memory: &Memory, table: VtdRootTableBacking, bus: u8) -> VtdRootEntry {
    let (low, high) = memory.words(table.entry_vaddr(bus).unwrap());
    VtdRootEntry::from_words(low, high)
}

/// Runs the descriptors of a plan through the unit's queue, with the head
/// register at its first entry as in the constructed register files.
fn submit_all(
    unit: &mut VtdUnit<VtdSecondLevelPte, 256>,
    memory: &Memory,
    descriptors: &[VtdQueuedInvalidationDescriptor],
) -> Cell<usize> {
    let tail = Cell::new(0);
    for descriptor in descriptors {
        let mut device = QueueCallbacks::new(
            |write| memory.write_slot(write),
            || Ok(QI_ENTRY_BYTES),
            |new_tail| {
                tail.set(new_tail);
                Ok(())
            },
            || Ok(()),
        );
        unit.submit_queued_invalidation(*descriptor, &mut device)
            .unwrap();
    }
    tail
}

#[test]
fn root_entry_points_at_context_table() {
    let root_page = root_memory();
    let context_page = context_memory();
    let root = root_table(&root_page);
    let context = context_table(&context_page);
    let entry = VtdRootEntry::from_context_table(context).unwrap();

    root_page.write_entry(write_root_entry(root, 0x2a, entry).unwrap());

    let read = read_root_entry(&root_page, root, 0x2a);
    assert!(read.present());
    assert_eq!(read.context_table_root(), Some(context.phys().start));
}

#[test]
fn context_entry_encodes_domain_root_width_and_id() {
    let domain = domain(0x1234, 0x20_0000);
    let entry = VtdContextEntry::from_domain(domain).unwrap();

    assert!(entry.present());
    assert_eq!(
        entry.translation_type(),
        CONTEXT_TRANSLATION_TYPE_MULTI_LEVEL
    );
    assert_eq!(entry.page_table_root(), Some(domain.root()));
    assert_eq!(entry.domain_id(), 0x1234);
    assert_eq!(entry.address_width_bits(), 48);
}

#[test]
fn context_table_writes_device_function_slot() {
    let context_page = context_memory();
    let context = context_table(&context_page);
    let client = PciDevice::new(0, 4, 5, 3).unwrap();
    let entry = VtdContextEntry::pass_through();

    context_page.write_entry(write_context_entry(context, client, entry).unwrap());

    assert_eq!(VtdContextTableBacking::client_entry_index(client), 0x2b);
    let (low, high) = context_page.words(context.client_entry_vaddr(client).unwrap());
    assert_eq!(VtdContextEntry::from_words(low, high), entry);
}

#[test]
fn queued_invalidation_table_address_encodes_queue_size() {
    for (entries, encoded) in [(256, 0), (512, 1), (1024, 2)] {
        let memory = Memory::new(0x7000_0000, entries * QI_ENTRY_BYTES);
        let backing = queue_backing(&memory, 0x20_0000, entries);

        assert_eq!(
            queued_invalidation_table_address(backing).unwrap(),
            0x20_0000 | encoded
        );
    }
}

#[test]
fn queued_invalidation_table_address_rejects_invalid_backing() {
    let small = Memory::new(0x7000_0000, 128 * QI_ENTRY_BYTES);
    assert_eq!(
        queued_invalidation_table_address(queue_backing(&small, 0x20_0000, 128)),
        Err(Error::InvalidRange)
    );

    let wide = Memory::new(0x7000_0000, 256 * 32);
    let backing = CommandQueueBacking::new(wide.phys(0x20_0000), wide.virt(), 256, 32).unwrap();
    assert_eq!(
        queued_invalidation_table_address(backing),
        Err(Error::InvalidGranule)
    );

    let unaligned = Memory::new(0x7000_0000, 256 * QI_ENTRY_BYTES);
    assert_eq!(
        queued_invalidation_table_address(queue_backing(&unaligned, 0x20_0080, 256)),
        Err(Error::InvalidAddress)
    );

    let long = Memory::new(0x7000_0000, 0x1_0000 * QI_ENTRY_BYTES);
    assert_eq!(
        queued_invalidation_table_address(queue_backing(&long, 0x20_0000, 0x1_0000)),
        Err(Error::InvalidRange)
    );
}

#[test]
fn unit_installs_context_table_for_bus() {
    let root_page = root_memory();
    let context_page = context_memory();
    let root = root_table(&root_page);
    let context = context_table(&context_page);
    let mut unit: VtdUnit<VtdSecondLevelPte, 256> = VtdUnit::new(unit_info(Some(0), 0, 0), register_window(), root);

    root_page.write_entry(unit.install_context_table(7, context).unwrap());

    assert_eq!(unit.context_table(7), Some(context));
    assert_eq!(unit.context_table(8), None);
    assert_eq!(
        read_root_entry(&root_page, root, 7).context_table_root(),
        Some(context.phys().start)
    );
}

#[test]
fn bind_validation_rejects_unsupported_or_wrong_contexts() {
    let root_page = root_memory();
    let root = root_table(&root_page);
    let unit: VtdUnit<VtdSecondLevelPte, 256> = VtdUnit::new(unit_info(Some(3), 0, 0), register_window(), root);
    let active = domain(1, 0x20_0000);
    let other = domain(2, 0x30_0000);
    let client = PciDevice::new(3, 4, 1, 0).unwrap();

    assert_eq!(
        unit.bind_context(
            active,
            Binding::new(
                client,
                BindingSelector::from_substream(1),
                BindingTarget::Domain(active),
            ),
        ),
        Err(Error::FeatureUnavailable)
    );
    assert_eq!(
        unit.bind_context(
            active,
            Binding::new(
                PciDevice::new(4, 4, 1, 0).unwrap(),
                BindingSelector::Default,
                BindingTarget::Domain(active),
            ),
        ),
        Err(Error::InvalidClient)
    );
    assert_eq!(
        unit.bind_context(
            active,
            Binding::new(
                client,
                BindingSelector::Default,
                BindingTarget::Domain(other)
            ),
        ),
        Err(Error::InvalidAddressSpace)
    );
    assert_eq!(
        unit.bind_context(
            active,
            Binding::new(
                client,
                BindingSelector::Default,
                BindingTarget::Domain(active)
            ),
        ),
        Err(Error::ControllerUnavailable)
    );
}

#[test]
fn binding_and_unbinding_write_one_context_entry() {
    let root_page = root_memory();
    let context_page = context_memory();
    let mut unit: VtdUnit<VtdSecondLevelPte, 256> = VtdUnit::new(
        unit_info(Some(3), 0, 0),
        register_window(),
        root_table(&root_page),
    );
    let context = context_table(&context_page);
    unit.install_context_table(4, context).unwrap();
    let active = domain(0x77, 0x20_0000);
    let client = PciDevice::new(3, 4, 1, 2).unwrap();

    let bound = unit
        .bind_context(
            active,
            Binding::new(
                client,
                BindingSelector::Default,
                BindingTarget::Domain(active),
            ),
        )
        .unwrap();
    context_page.write_entry(bound.write);
    let vaddr = context.client_entry_vaddr(client).unwrap();
    assert_eq!(bound.write.vaddr, vaddr);
    let (low, high) = context_page.words(vaddr);
    let entry = VtdContextEntry::from_words(low, high);
    assert_eq!(entry.page_table_root(), Some(active.root()));
    assert_eq!(entry.domain_id(), 0x77);
    assert_eq!(
        bound.context,
        VtdQueuedInvalidationDescriptor::context_device(client)
    );
    assert_eq!(
        bound.iotlb,
        VtdQueuedInvalidationDescriptor::iotlb_domain(active.id(), VtdCapability::from_bits(0))
    );

    let cleared = unit
        .unbind_context(active, client, BindingSelector::Default)
        .unwrap();
    context_page.write_entry(cleared.write);
    assert_eq!(context_page.words(vaddr), (0, 0));
    assert_eq!(
        unit.unbind_context(active, client, BindingSelector::from_addr_space(1)),
        Err(Error::FeatureUnavailable)
    );
    assert_eq!(
        unit.unbind_context(
            active,
            PciDevice::new(3, 5, 0, 0).unwrap(),
            BindingSelector::Default
        ),
        Err(Error::ControllerUnavailable)
    );
}

#[test]
fn page_invalidation_falls_back_to_domain_without_psi() {
    let root_page = root_memory();
    let queue = Memory::new(0x7000_0000, 256 * QI_ENTRY_BYTES);
    let mut unit: VtdUnit<VtdSecondLevelPte, 256> = VtdUnit::new(
        unit_info(Some(0), 0, 0),
        register_window(),
        root_table(&root_page),
    );
    unit.install_queued_invalidation(queue_backing(&queue, 0x20_0000, 256))
        .unwrap();

    let plan = unit.invalidate_iotlb_page(
        VtdIoDomain::from_asid(7).unwrap(),
        IoviAddr::<u64>::from(0x4000),
        PageSize::Size1G,
    );
    assert_eq!(plan.scope, InvalidateScope::Domain);
    submit_all(&mut unit, &queue, &plan.descriptors);

    let (low, _) = queue.words(VirtAddr::from_usize(0x7000_0000));
    assert_eq!(low & QI_IOTLB_DOMAIN, QI_IOTLB_DOMAIN);
    assert_eq!((low >> QI_IOTLB_DID_SHIFT) & 0xffff, 7);
}

#[test]
fn range_invalidation_coalesces_to_largest_supported_address_mask() {
    let root_page = root_memory();
    let queue = Memory::new(0x7000_0000, 256 * QI_ENTRY_BYTES);
    let cap = CAP_PSI | (18_u64 << CAP_MAMV_SHIFT);
    let mut unit: VtdUnit<VtdSecondLevelPte, 256> = VtdUnit::new(
        unit_info(Some(0), cap, 0),
        register_window(),
        root_table(&root_page),
    );
    unit.install_queued_invalidation(queue_backing(&queue, 0x20_0000, 256))
        .unwrap();

    let plan = unit
        .invalidate_iotlb_range(
            VtdIoDomain::from_asid(7).unwrap(),
            IoviAddr::<u64>::from(0x20_0000),
            PageSize::Size4K,
            512,
        )
        .unwrap();
    assert_eq!(plan.scope, InvalidateScope::Leaf);
    let tail = submit_all(&mut unit, &queue, &plan.descriptors);

    let (low, high) = queue.words(VirtAddr::from_usize(0x7000_0000));
    assert_eq!(low & QI_IOTLB_PAGE, QI_IOTLB_PAGE);
    assert_eq!(high & PAGE_ADDR_MASK, 0x20_0000);
    assert_eq!(high & IVA_AM_MASK, 9);
    assert_eq!(tail.get(), QI_ENTRY_BYTES);
}

#[test]
fn range_invalidation_uses_domain_when_descriptor_count_is_too_high() {
    let root_page = root_memory();
    let queue = Memory::new(0x7000_0000, 256 * QI_ENTRY_BYTES);
    let mut unit: VtdUnit<VtdSecondLevelPte, 256> = VtdUnit::new(
        unit_info(Some(0), CAP_PSI, 0),
        register_window(),
        root_table(&root_page),
    );
    unit.install_queued_invalidation(queue_backing(&queue, 0x20_0000, 256))
        .unwrap();

    let plan = unit
        .invalidate_iotlb_range(
            VtdIoDomain::from_asid(7).unwrap(),
            IoviAddr::<u64>::from(0x4000),
            PageSize::Size4K,
            IOTLB_RANGE_DOMAIN_INVALIDATION_THRESHOLD + 1,
        )
        .unwrap();
    assert_eq!(plan.scope, InvalidateScope::Domain);
    submit_all(&mut unit, &queue, &plan.descriptors);

    let (low, _) = queue.words(VirtAddr::from_usize(0x7000_0000));
    assert_eq!(low & QI_IOTLB_DOMAIN, QI_IOTLB_DOMAIN);
    assert_eq!((low >> QI_IOTLB_DID_SHIFT) & 0xffff, 7);
}

#[test]
fn range_invalidation_edges() {
    let root_page = root_memory();
    let cap = CAP_PSI | (18_u64 << CAP_MAMV_SHIFT);
    let unit: VtdUnit<VtdSecondLevelPte, 256> = VtdUnit::new(
        unit_info(Some(0), cap, 0),
        register_window(),
        root_table(&root_page),
    );
    let domain = VtdIoDomain::from_asid(7).unwrap();
    let start = IoviAddr::<u64>::from(0x3000);

    let none = unit
        .invalidate_iotlb_range(domain, start, PageSize::Size4K, 0)
        .unwrap();
    assert_eq!(none.scope, InvalidateScope::Leaf);
    assert!(none.descriptors.is_empty());

    let threshold = unit
        .invalidate_iotlb_range(domain, start, PageSize::Size4K, 5)
        .unwrap();
    assert_eq!(threshold.scope, InvalidateScope::Leaf);
    let pages: Vec<(u64, u64)> = threshold
        .descriptors
        .iter()
        .map(|d| (d.high() & PAGE_ADDR_MASK, d.high() & IVA_AM_MASK))
        .collect();
    assert_eq!(pages, vec![(0x3000, 0), (0x4000, 2)]);

    let misaligned = unit
        .invalidate_iotlb_range(domain, start, PageSize::Size2M, 1)
        .unwrap();
    assert_eq!(misaligned.scope, InvalidateScope::Domain);
    let odd_size = unit
        .invalidate_iotlb_range(domain, start, PageSize::Size64K, 1)
        .unwrap();
    assert_eq!(odd_size.scope, InvalidateScope::Domain);
    assert_eq!(
        unit.invalidate_iotlb_range(
            domain,
            IoviAddr::<u64>::from(0x20_0000),
            PageSize::Size2M,
            usize::MAX
        ),
        Err(Error::AddressOverflow)
    );
}

#[test]
fn controller_requests_become_descriptors() {
    let root_page = root_memory();
    let unit: VtdUnit<VtdSecondLevelPte, 256> = VtdUnit::new(
        unit_info(Some(0), CAP_PSI, 0),
        register_window(),
        root_table(&root_page),
    );
    let active = domain(9, 0x20_0000);
    let client = PciDevice::new(0, 0, 1, 0).unwrap();
    let cap = VtdCapability::from_bits(CAP_PSI);

    let global = unit.invalidate(active, Invalidate::Global).unwrap();
    assert_eq!(global.outcome().scope(), InvalidateScope::Global);
    assert!(global.outcome().queued());
    assert_eq!(
        global.descriptors,
        vec![VtdQueuedInvalidationDescriptor::iotlb_global(cap)]
    );
    let space = unit.invalidate(active, Invalidate::AddressSpace).unwrap();
    assert_eq!(
        space.descriptors,
        vec![VtdQueuedInvalidationDescriptor::iotlb_domain(
            active.id(),
            cap
        )]
    );
    let leaf = unit
        .invalidate(
            active,
            Invalidate::Leaf {
                iova: IoviAddr::<u64>::from(0x5000),
                granule: PageSize::Size4K,
            },
        )
        .unwrap();
    assert_eq!(leaf.scope, InvalidateScope::Leaf);
    assert_eq!(
        unit.invalidate(active, Invalidate::Device { client }),
        Err(Error::FeatureUnavailable)
    );
    assert_eq!(
        unit.invalidate(
            active,
            Invalidate::DeviceLeaf {
                client,
                iova: IoviAddr::<u64>::from(0x5000),
                granule: PageSize::Size4K,
            }
        ),
        Err(Error::FeatureUnavailable)
    );
}

#[test]
fn range_plan_splits_by_alignment_and_capability() {
    let mut plan = VtdIotlbRangePlan::new(512, 1024, 0, 18).unwrap();

    assert_eq!(
        plan.next_block(),
        Some(VtdIotlbRangeBlock {
            page: 512,
            address_mask: 9,
        })
    );
    assert_eq!(
        plan.next_block(),
        Some(VtdIotlbRangeBlock {
            page: 1024,
            address_mask: 9,
        })
    );
    assert_eq!(plan.next_block(), None);
}

#[test]
fn range_plan_reports_each_fault_and_covers_its_pages() {
    assert_eq!(
        VtdIotlbRangePlan::new(0, 1, 9, 8),
        Err(Error::FeatureUnavailable)
    );
    assert_eq!(
        VtdIotlbRangePlan::new(0, 1, 64, 64),
        Err(Error::AddressOverflow)
    );
    assert_eq!(
        VtdIotlbRangePlan::new(1, 512, 9, 9),
        Err(Error::InvalidRange)
    );
    assert_eq!(
        VtdIotlbRangePlan::new(512, 513, 9, 9),
        Err(Error::InvalidRange)
    );
    assert_eq!(
        VtdIotlbRangePlan::new(3, 0, 70, 0).unwrap().descriptor_count(),
        0
    );

    let plan = VtdIotlbRangePlan::new(5, 100, 0, 4).unwrap();
    let mut cursor = plan;
    let mut next = 5;
    let mut count = 0;
    while let Some(block) = cursor.next_block() {
        assert_eq!(block.page, next);
        assert!(block.address_mask <= 4);
        assert_eq!(block.page % (1 << block.address_mask), 0);
        next += 1 << block.address_mask;
        count += 1;
    }
    assert_eq!(next, 105);
    assert_eq!(plan.descriptor_count(), count);
}

#[test]
fn fault_decoders_preserve_primary_record_details() {
    let fault = decode_primary_fault(
        2,
        3,
        0x1234_5678,
        FRCDH_FAULT | FRCDH_EXECUTE | (0x2a << FRCDH_REASON_SHIFT) | 0x0408,
    );

    assert_eq!(fault.reason(), VtdFaultReason::Primary { raw: 0x2a });
    assert_eq!(fault.record_index(), Some(3));
    assert_eq!(fault.source_id(), Some(0x0408));
    assert_eq!(
        fault.client(),
        Some(PciDevice::from_segment_bdf(2, Bdf::from_u16(0x0408)))
    );
    assert_eq!(fault.iova(), Some(IoviAddr::<u64>::from(0x1234_5000)));
    assert!(fault.access().contains(DmaAccess::read()));
    assert!(fault.access().contains(DmaAccess::execute()));

    let status_fault = decode_fault_status(FSTS_AFO | FSTS_PPF).unwrap();
    assert_eq!(status_fault.reason(), VtdFaultReason::AdvancedFaultOverflow);
    assert!(status_fault.overflow());
    assert!(status_fault.pending());
}

#[test]
fn fault_status_priorities_and_polls() {
    let info = unit_info(None, 0x22 << 24, 0);
    assert_eq!(poll_fault(info, 0), Ok(VtdFaultPoll::Quiet));
    assert_eq!(
        poll_fault(info, 0x102),
        Err(Error::ControllerUnavailable)
    );
    assert_eq!(
        poll_fault(info, 0x02),
        Ok(VtdFaultPoll::ReadRecord {
            index: 0,
            record: 0x220
        })
    );
    let Ok(VtdFaultPoll::Report { fault, clear }) = poll_fault(info, 0xffff_00f0) else {
        panic!("expected a report");
    };
    assert_eq!(fault.reason(), VtdFaultReason::InvalidationQueueError);
    assert_eq!(clear, 0xf0);
    for (bit, reason) in [
        (0u32, VtdFaultReason::PrimaryFaultOverflow),
        (2, VtdFaultReason::AdvancedFaultOverflow),
        (3, VtdFaultReason::AdvancedPendingFault),
        (4, VtdFaultReason::InvalidationQueueError),
        (5, VtdFaultReason::InvalidationCompletionError),
        (6, VtdFaultReason::InvalidationTimeout),
        (7, VtdFaultReason::PageRequestOverflow),
    ] {
        assert_eq!(decode_fault_status(1 << bit).unwrap().reason(), reason);
    }
    assert!(decode_fault_status(0xffff_ff00).is_none());

    assert_eq!(
        poll_primary_fault(info, 0, 0, 0x0408),
        Err(Error::ControllerUnavailable)
    );
    let fault = poll_primary_fault(info, 0, 0x5abc, FRCDH_FAULT | (1 << 31) | 0x0408).unwrap();
    assert_eq!(fault.client(), Some(PciDevice::from_u32(0x0408)));
    assert_eq!(fault.access(), DmaAccess::write());
}

#[test]
fn binding_context_rejects_non_default_selector_for_legacy_contexts() {
    let client = PciDevice::new(0, 0, 1, 0).unwrap();
    let binding = Binding::new(
        client,
        BindingSelector::from_substream(7),
        BindingTarget::<VtdDomain>::Abort,
    );

    assert_eq!(
        VtdContextEntry::from_binding(binding, VtdExtendedCapability::from_bits(ECAP_PT)),
        Err(Error::FeatureUnavailable)
    );
}

#[test]
fn binding_context_checks_pass_through_capability() {
    let client = PciDevice::new(0, 0, 1, 0).unwrap();
    let binding = Binding::new(client, BindingSelector::Default, BindingTarget::PassThrough);

    assert_eq!(
        VtdContextEntry::from_binding(binding, VtdExtendedCapability::from_bits(0)),
        Err(Error::FeatureUnavailable)
    );

    let entry = VtdContextEntry::from_binding(binding, VtdExtendedCapability::from_bits(ECAP_PT))
        .unwrap();
    assert!(entry.present());
    assert_eq!(
        entry.translation_type(),
        CONTEXT_TRANSLATION_TYPE_PASS_THROUGH
    );
    assert_eq!(entry.page_table_root(), None);
    assert_eq!(entry.address_width_bits(), 30);
}

#[test]
fn context_entry_rejects_unaligned_roots() {
    assert_eq!(
        VtdContextEntry::from_domain(domain(1, 0x20_0800)),
        Err(Error::InvalidAddress)
    );
    let entry = VtdContextEntry::from_domain(domain(1, 0x20_0000)).unwrap();
    assert_eq!((entry.low(), entry.high()), (0x20_0001, 0x102));
}

#[test]
fn context_device_uses_pci_source_id() {
    let client = PciDevice::new(0, 0x2a, 5, 3).unwrap();
    let desc = VtdQueuedInvalidationDescriptor::context_device(client);

    assert_eq!(desc.low() >> QI_CC_SID_SHIFT, 0x2a2b);
}

#[test]
fn page_iotlb_descriptor_encodes_address_mask() {
    let cap = VtdCapability::from_bits(CAP_PSI | (18_u64 << CAP_MAMV_SHIFT));
    let desc = VtdQueuedInvalidationDescriptor::iotlb_page(
        VtdIoDomain::from_asid(7).unwrap(),
        IoviAddr::<u64>::from(0x4000_1234),
        PageSize::Size1G,
        cap,
    )
    .unwrap();

    assert_eq!((desc.low() >> QI_IOTLB_DID_SHIFT) & 0xffff, 7);
    assert_eq!(desc.high() & PAGE_ADDR_MASK, 0x4000_1000);
    assert_eq!(desc.high() & IVA_AM_MASK, 18);
    assert_eq!(
        VtdQueuedInvalidationDescriptor::iotlb_page_with_address_mask(
            VtdIoDomain::from_asid(7).unwrap(),
            IoviAddr::<u64>::from(0x4000_1234),
            19,
            cap,
        ),
        Err(Error::FeatureUnavailable)
    );
}

#[test]
fn descriptors_have_exact_words() {
    let drains = VtdCapability::from_bits((1 << 54) | (1 << 55));
    assert_eq!(VtdQueuedInvalidationDescriptor::context_global().low(), 0x11);
    assert_eq!(
        VtdQueuedInvalidationDescriptor::iotlb_global(drains).low(),
        0xd2
    );
    assert_eq!(
        VtdQueuedInvalidationDescriptor::iotlb_domain(
            VtdIoDomain::from_asid(0xabcd).unwrap(),
            drains
        )
        .low(),
        0xabcd_00e2
    );
    assert_eq!(
        VtdQueuedInvalidationDescriptor::interrupt_entry_cache(VtdInterruptEntry::new(0x1234))
            .low(),
        0x1234_0000_0014
    );
    assert_eq!(
        VtdQueuedInvalidationDescriptor::from_words(0x0807_0605_0403_0201, 0x100f_0e0d_0c0b_0a09)
            .bytes(),
        [1u8, 2, 3, 4, 5, 6, 7, 8, 9, 10, 11, 12, 13, 14, 15, 16]
    );
}

#[test]
fn interrupt_remap_entry_encodes_x86_delivery_and_source() {
    let source = PciDevice::new(0, 0x2a, 5, 3).unwrap();
    let delivery = X86MsiDelivery::fixed(
        X86MsiDestination::Physical(0x42),
        X86InterruptVector::new(0x45).unwrap(),
    );
    let entry = VtdInterruptRemapEntry::from_x86_delivery(source, delivery);

    assert!(entry.present());
    assert_eq!((entry.low() >> IRTE_VECTOR_SHIFT) & 0xff, 0x45);
    assert_eq!((entry.low() >> IRTE_DESTINATION_SHIFT) & 0xffff_ffff, 0x42);
    assert_eq!(entry.low() & IRTE_DESTINATION_MODE_LOGICAL, 0);
    assert_eq!(entry.low() & IRTE_TRIGGER_MODE_LEVEL, 0);
    assert_eq!(entry.high() & 0xffff, u64::from(source.bdf().as_u16()));
    assert_eq!(
        (entry.high() >> IRTE_SOURCE_VALIDATION_TYPE_SHIFT) & 0x3,
        IRTE_SOURCE_VALIDATION_VERIFY_SOURCE_ID
    );
}

#[test]
fn interrupt_remap_entry_keeps_delivery_mode_bits() {
    let source = PciDevice::new(0, 0, 1, 0).unwrap();
    let delivery = X86MsiDelivery::new(
        X86MsiDestination::Logical(0x03),
        X86InterruptVector::new(0x80).unwrap(),
        X86MsiDeliveryMode::LowestPriority,
    )
    .with_trigger_mode(X86MsiTriggerMode::Level)
    .with_redirection_hint(true);
    let entry = VtdInterruptRemapEntry::from_x86_delivery(source, delivery);

    assert_ne!(entry.low() & IRTE_DESTINATION_MODE_LOGICAL, 0);
    assert_ne!(entry.low() & IRTE_REDIRECTION_HINT, 0);
    assert_ne!(entry.low() & IRTE_TRIGGER_MODE_LEVEL, 0);
    assert_eq!((entry.low() >> IRTE_DELIVERY_MODE_SHIFT) & 0x7, 1);
}

#[test]
fn interrupt_remap_target_preserves_extended_destination_id() {
    let source = PciDevice::new(0, 0, 2, 0).unwrap();
    let target = VtdInterruptRemapTarget::new(
        0x1234_5678,
        X86InterruptVector::new(0x90).unwrap(),
        X86MsiDeliveryMode::Fixed,
    );
    let entry = VtdInterruptRemapEntry::from_target(source, target);

    assert_eq!(
        (entry.low() >> IRTE_DESTINATION_SHIFT) & 0xffff_ffff,
        0x1234_5678
    );
    assert_eq!(
        VtdInterruptRemapEntry::fixed(source, X86MsiDestination::Physical(1), 31),
        Err(Error::InvalidRange)
    );
    assert_eq!(
        VtdInterruptRemapEntry::fixed(source, X86MsiDestination::Physical(1), 32)
            .unwrap()
            .low(),
        0x1_0020_0001
    );
}

#[test]
fn remapped_msi_message_encodes_index_and_subhandle() {
    let message = VtdInterruptEntry::new(0x1234).remapped_msi(7);

    assert_eq!(message.message().address(), 0xfee2_4698);
    assert_eq!(message.message().data(), 7);
    assert_eq!(
        VtdInterruptEntry::new(0x8000).remapped_msi(0).message().address(),
        0xfee0_001c
    );
}

#[test]
fn interrupt_remap_table_writes_128_bit_entry() {
    let memory = Memory::new(0x7300_0000, 32);
    let table =
        VtdInterruptRemapTableBacking::new(memory.phys(0x4000), memory.virt(), 2).unwrap();
    let remap = VtdInterruptRemapEntry::from_words(0x1122_3344_5566_7788, 0x99aa_bbcc_ddee_ff00);

    memory.write_entry(
        write_interrupt_remap_entry(table, VtdInterruptEntry::new(1), remap).unwrap(),
    );

    assert_eq!(
        memory.words(VirtAddr::from_usize(0x7300_0010)),
        (remap.low(), remap.high())
    );
    assert_eq!(
        write_interrupt_remap_entry(table, VtdInterruptEntry::new(2), remap),
        Err(Error::InvalidRange)
    );
    assert_eq!(table.byte_len(), 32);
    assert_eq!(table.irta_size(), 0);
}

#[test]
fn interrupt_remap_table_sizes_are_checked() {
    let memory = Memory::new(0x7300_0000, 0x1_0000 * 16);
    let (phys, virt) = (memory.phys(0x4000), memory.virt());
    assert_eq!(
        VtdInterruptRemapTableBacking::new(phys, virt, 1),
        Err(Error::InvalidRange)
    );
    assert_eq!(
        VtdInterruptRemapTableBacking::new(phys, virt, 6),
        Err(Error::InvalidRange)
    );
    assert_eq!(
        VtdInterruptRemapTableBacking::new(phys, virt, 0x2_0000),
        Err(Error::InvalidRange)
    );
    let table = VtdInterruptRemapTableBacking::new(phys, virt, 0x1_0000).unwrap();
    assert_eq!(table.irta_size(), 15);
    assert_eq!(
        register_window().set_interrupt_remap_table(table, true),
        vec![
            RegisterStep::Write64 {
                offset: REG_IRTA,
                value: 0x4000 | 0x800 | 15
            },
            RegisterStep::Command {
                set: GCMD_SIRTP,
                clear: 0
            },
            RegisterStep::Await {
                mask: GSTS_IRTPS,
                expected: GSTS_IRTPS
            },
        ]
    );
    let unaligned = memory.phys(0x4800);
    assert_eq!(
        VtdInterruptRemapTableBacking::new(unaligned, virt, 2),
        Err(Error::InvalidAddress)
    );
}

#[test]
fn queued_invalidation_descriptor_submits_to_command_queue() {
    const ENTRIES: usize = 4;
    const ENTRY_BYTES: usize = 16;

    let memory = Memory::new(0x7000_0000, ENTRIES * ENTRY_BYTES);
    let backing =
        CommandQueueBacking::new(memory.phys(0x5000), memory.virt(), ENTRIES, ENTRY_BYTES).unwrap();
    let mut queue: VtdQueuedInvalidationQueue<ENTRIES> = VtdQueuedInvalidationQueue::new();
    queue.init(backing).unwrap();

    let head = Cell::new(0usize);
    let desc = VtdQueuedInvalidationDescriptor::context_global();
    desc.submit_to(
        &mut queue,
        |write| memory.write_slot(write),
        || Ok(head.get()),
        |tail| head.set(tail),
        || Ok(()),
    )
    .unwrap();

    assert_eq!(
        memory.words(VirtAddr::from_usize(0x7000_0000)),
        (desc.low(), desc.high())
    );
}

#[test]
fn register_plans_are_exact() {
    let root_page = root_memory();
    let root = root_table(&root_page);
    assert_eq!(
        register_window().set_root_table(root).unwrap(),
        vec![
            RegisterStep::Write64 {
                offset: REG_RTADDR,
                value: 0x4000
            },
            RegisterStep::Command {
                set: GCMD_SRTP,
                clear: 0
            },
            RegisterStep::Await {
                mask: GSTS_RTPS,
                expected: GSTS_RTPS
            },
        ]
    );
    assert_eq!(
        register_window().set_root_entry_table(PhysAddr::from_usize(0x4800)),
        Err(Error::InvalidGranule)
    );
    assert_eq!(
        register_window().disable_translation(),
        vec![
            RegisterStep::Command {
                set: 0,
                clear: GCMD_TE
            },
            RegisterStep::Await {
                mask: GSTS_TES,
                expected: 0
            },
        ]
    );
    assert_eq!(global_command(0x0100_0001, GCMD_TE, 0x1), 0x8100_0000);
}

#[test]
fn unit_enables_queue_before_translation() {
    let root_page = root_memory();
    let queue = Memory::new(0x7000_0000, 256 * QI_ENTRY_BYTES);
    let mut unit: VtdUnit<VtdSecondLevelPte, 256> = VtdUnit::new(
        unit_info(Some(0), 0, 0),
        register_window(),
        root_table(&root_page),
    );
    assert_eq!(unit.enable_translation(0), Err(Error::ControllerUnavailable));
    let root = root_table(&root_page).phys().start.as_usize() as u64;
    let set_root = vec![
        RegisterStep::Write64 {
            offset: REG_RTADDR,
            value: root,
        },
        RegisterStep::Command {
            set: GCMD_SRTP,
            clear: 0,
        },
        RegisterStep::Await {
            mask: GSTS_RTPS,
            expected: GSTS_RTPS,
        },
    ];
    let start = unit.begin_translation().unwrap();
    assert_eq!(start.steps, set_root);
    assert_eq!(start.ready, Err(Error::ControllerUnavailable));

    let backing = queue_backing(&queue, 0x20_0000, 256);
    let enable_queue = vec![
        RegisterStep::Command {
            set: GCMD_QIE,
            clear: 0,
        },
        RegisterStep::Await {
            mask: GSTS_QIES,
            expected: GSTS_QIES,
        },
    ];
    let enable_translation = vec![
        RegisterStep::Command {
            set: GCMD_TE,
            clear: 0,
        },
        RegisterStep::Await {
            mask: GSTS_TES,
            expected: GSTS_TES,
        },
    ];
    let mut install = vec![
        RegisterStep::Write64 {
            offset: REG_IQA,
            value: 0x20_0000,
        },
        RegisterStep::Write64 {
            offset: REG_IQT,
            value: 0,
        },
    ];
    install.extend(enable_queue.clone());
    assert_eq!(unit.install_queued_invalidation(backing).unwrap(), install);

    let mut both = enable_queue;
    both.extend(enable_translation.clone());
    let start = unit.begin_translation().unwrap();
    assert_eq!(start.steps, set_root);
    assert_eq!(start.ready, Ok(()));
    assert_eq!(unit.enable_translation(0).unwrap(), both);
    assert_eq!(
        unit.enable_translation(GSTS_QIES).unwrap(),
        enable_translation
    );

    let long = Memory::new(0x7000_0000, 512 * QI_ENTRY_BYTES);
    assert_eq!(
        unit.install_queued_invalidation(queue_backing(&long, 0x20_0000, 512)),
        Err(Error::InvalidRange)
    );
}

#[test]
fn status_waits_end_in_agreement_error_or_timeout() {
    let window = register_window();
    let reads = Cell::new(0u32);
    assert_eq!(
        window.wait_global_status(GSTS_TES, GSTS_TES, || {
            reads.set(reads.get() + 1);
            Ok(if reads.get() < 5 { 0 } else { GSTS_TES | 1 })
        }),
        Ok(())
    );
    assert_eq!(reads.get(), 5);
    assert_eq!(
        window.wait_global_status(GSTS_TES, 0, || Err(Error::InvalidRange)),
        Err(Error::InvalidRange)
    );
    assert_eq!(
        window.wait_global_status(GSTS_TES, 0, || Ok(GSTS_TES)),
        Err(Error::ControllerUnavailable)
    );
}

#[test]
fn register_addresses_stay_in_the_window() {
    let window = register_window();
    assert_eq!(
        window.register_vaddr(0x88, 8),
        Ok(VirtAddr::from_usize(0x9000_0088))
    );
    assert_eq!(window.register_vaddr(0xffc, 8), Err(Error::InvalidRange));
    assert_eq!(
        window.register_vaddr(usize::MAX, 8),
        Err(Error::AddressOverflow)
    );
    assert_eq!(window.mmio_range(), mmio_range(0xfee0_0000, 0x1000));
}

#[test]
fn fault_event_route_round_trips() {
    let message = MsiMessage::new(0x0000_0001_fee0_1000, 0x45);
    assert_eq!(
        register_window().configure_fault_event(InterruptRoute::Msi(message)),
        vec![
            RegisterStep::Write32 {
                offset: REG_FEDATA,
                value: 0x45
            },
            RegisterStep::Write32 {
                offset: REG_FEADDR,
                value: 0xfee0_1000
            },
            RegisterStep::Write32 {
                offset: REG_FEUADDR,
                value: 1
            },
            RegisterStep::Write32 {
                offset: REG_FECTL,
                value: 0
            },
        ]
    );
    assert_eq!(
        register_window().fault_event_route(0, 0x45, 0xfee0_1000, 1),
        InterruptRoute::Msi(message)
    );
    assert_eq!(
        register_window().configure_fault_event(InterruptRoute::Disabled),
        vec![RegisterStep::Write32 {
            offset: REG_FECTL,
            value: FECTL_INTERRUPT_MASK
        }]
    );
    assert_eq!(
        register_window().fault_event_route(FECTL_INTERRUPT_MASK, 0x45, 0, 0),
        InterruptRoute::Disabled
    );
}

#[test]
fn interrupt_remap_composition_writes_and_invalidates() {
    let memory = Memory::new(0x7300_0000, 64);
    let table =
        VtdInterruptRemapTableBacking::new(memory.phys(0x4000), memory.virt(), 4).unwrap();
    let remap = VtdInterruptRemapEntry::from_words(1, 2);
    let entry = VtdInterruptEntry::new(3);
    let update = register_window().compose_interrupt_remap(table, entry, 9, remap).unwrap();
    assert_eq!(
        update.write,
        TableWrite {
            vaddr: VirtAddr::from_usize(0x7300_0030),
            low: 1,
            high: 2
        }
    );
    assert_eq!(
        update.cache,
        VtdQueuedInvalidationDescriptor::interrupt_entry_cache(entry)
    );
    assert_eq!(update.msi, entry.remapped_msi(9));
}

#[test]
fn binding_context_is_written_to_the_requesters_entry() {
    let memory = context_memory();
    let table = context_table(&memory);
    let client = PciDevice::new(0, 0, 3, 1).unwrap();
    let bound = domain(7, 0x20_0000);
    let binding = Binding::new(client, BindingSelector::Default, BindingTarget::Domain(bound));
    let write =
        register_window().write_binding_context(table, binding, VtdExtendedCapability::from_bits(0)).unwrap();
    let entry = VtdContextEntry::from_domain(bound).unwrap();
    assert_eq!(write.vaddr, table.client_entry_vaddr(client).unwrap());
    assert_eq!((write.low, write.high), (entry.low(), entry.high()));

    let passing = Binding::new(client, BindingSelector::Default, BindingTarget::PassThrough);
    assert_eq!(
        register_window().write_binding_context(table, passing, VtdExtendedCapability::from_bits(0)),
        Err(Error::FeatureUnavailable)
    );
}

#[test]
fn full_flush_is_preferred_past_the_threshold() {
    assert!(!prefer_full_flush(IOTLB_RANGE_DOMAIN_INVALIDATION_THRESHOLD));
    assert!(prefer_full_flush(IOTLB_RANGE_DOMAIN_INVALIDATION_THRESHOLD + 1));
}

#[test]
fn unit_polls_faults_of_its_segment() {
    let memory = root_memory();
    let unit = VtdUnit::<VtdSecondLevelPte, 256>::new(
        unit_info(Some(5), 0x22 << 24, 0),
        register_window(),
        root_table(&memory),
    );
    assert_eq!(unit.poll_fault(0), Ok(VtdFaultPoll::Quiet));
    assert_eq!(
        unit.poll_fault(FSTS_PPF),
        Ok(VtdFaultPoll::ReadRecord {
            index: 0,
            record: 0x220
        })
    );
    let fault = unit.poll_primary_fault(0, 0x5000, FRCDH_FAULT | 0x0408).unwrap();
    assert_eq!(
        fault.client(),
        Some(PciDevice::from_segment_bdf(5, Bdf::from_u16(0x0408)))
    );
    assert_eq!(
        unit.poll_primary_fault(0, 0x5000, 0x0408),
        Err(Error::ControllerUnavailable)
    );
}

#[test]
fn window_clears_entries_and_submits_to_a_ring() {
    let window = register_window();
    let memory = context_memory();
    let table = context_table(&memory);
    let client = PciDevice::new(0, 0, 3, 1).unwrap();
    let cleared = window.clear_context_entry(table, client).unwrap();
    assert_eq!(cleared.vaddr, table.client_entry_vaddr(client).unwrap());
    assert_eq!((cleared.low, cleared.high), (0, 0));
    let roots = root_memory();
    let cleared = window.clear_root_entry(root_table(&roots), 7).unwrap();
    assert_eq!(cleared.vaddr.as_usize(), roots.base + 7 * 16);

    let ring = Memory::new(0x4000_0000, 256 * QI_ENTRY_BYTES);
    let mut queue: VtdQueuedInvalidationQueue<256> = VtdQueuedInvalidationQueue::new();
    queue.init(queue_backing(&ring, 0x10_0000, 256)).unwrap();
    let head = Cell::new(0usize);
    let cap = VtdCapability::from_bits(0);
    let mut device = QueueCallbacks::new(
        |write: SlotWrite| ring.write_slot(write),
        || Ok(head.get()),
        |tail: usize| {
            head.set(tail);
            Ok(())
        },
        || Ok(()),
    );
    window
        .invalidate_context_global(&mut queue, &mut device)
        .unwrap();
    window
        .invalidate_context_device(&mut queue, client, &mut device)
        .unwrap();
    window
        .invalidate_iotlb_global(&mut queue, cap, &mut device)
        .unwrap();
    let domain = VtdIoDomain::from_asid(5).unwrap();
    window
        .invalidate_iotlb_domain(&mut queue, domain, cap, &mut device)
        .unwrap();
    assert_eq!(
        window.invalidate_iotlb_page(
            &mut queue,
            domain,
            IoviAddr::from_usize(0x1000),
            PageSize::Size4K,
            cap,
            &mut device,
        ),
        Err(Error::FeatureUnavailable)
    );
    VtdQueuedInvalidationDescriptor::from_words(0x77, 0x88)
        .submit_to(
            &mut queue,
            |write: SlotWrite| ring.write_slot(write),
            || Ok(head.get()),
            |tail: usize| head.set(tail),
            || Ok(()),
        )
        .unwrap();
    assert_eq!(
        ring.words(VirtAddr::from_usize(ring.base + 4 * 16)),
        (0x77, 0x88)
    );
    assert_eq!(head.get(), 5 * QI_ENTRY_BYTES);
    let low = |slot: usize| ring.words(VirtAddr::from_usize(ring.base + slot * 16)).0;
    assert_eq!(low(0), VtdQueuedInvalidationDescriptor::context_global().low());
    assert_eq!(low(1), VtdQueuedInvalidationDescriptor::context_device(client).low());
    assert_eq!(low(2), 0x12);
    assert_eq!(low(3), 0x22 | (5 << 16));
    assert_eq!(low(5), 0);
}

#[test]
fn window_and_unit_give_out_their_mapping() {
    let mut window = register_window();
    assert_eq!(window.mapping().paddr, PhysAddr::from_usize(0xfee0_0000));
    window.mapping_mut().paddr = PhysAddr::from_usize(0xfed0_0000);
    assert_eq!(
        window.mmio_range(),
        mmio_range(0xfed0_0000, PageSize::Size4K.bytes())
    );
    let memory = root_memory();
    let mut unit = VtdUnit::<VtdSecondLevelPte, 256>::new(
        unit_info(None, 0, 0),
        register_window(),
        root_table(&memory),
    );
    *unit.registers_mut() = window;
    assert_eq!(*unit.registers(), window);
}

#[test]
fn status_polls_end_at_the_limit() {
    assert_eq!(poll_outcome(0, GSTS_TES, GSTS_TES, GSTS_TES), Poll::Done);
    assert_eq!(poll_outcome(0, 0, GSTS_TES, GSTS_TES), Poll::Again);
    assert_eq!(poll_outcome(999_998, 0, GSTS_TES, GSTS_TES), Poll::Again);
    assert_eq!(poll_outcome(999_999, 0, GSTS_TES, GSTS_TES), Poll::TimedOut);
    assert_eq!(poll_outcome(999_999, GSTS_TES, GSTS_TES, GSTS_TES), Poll::Done);
}

#[test]
fn range_plans_use_the_fewest_blocks() {
    for start in 0usize..20 {
        let mut fewest = [0usize; 40];
        for pages in 1usize..40 {
            let end = start + pages;
            let mut best = usize::MAX;
            for mask in 0u8..=3 {
                let size = 1usize << mask;
                if size <= pages && end % size == 0 {
                    best = best.min(fewest[pages - size] + 1);
                }
            }
            fewest[pages] = best;
            let plan = VtdIotlbRangePlan::new(start, pages, 0, 3).unwrap();
            assert_eq!(plan.descriptor_count(), best);
        }
    }
}

#[test]
fn taken_faults_are_cleared_where_they_were_read() {
    assert_eq!(primary_fault_offsets(0x220), Ok((0x220, 0x228)));
    assert_eq!(
        clear_primary_fault(0x220, FRCDH_FAULT | 0x0408),
        Ok(RegisterStep::Write64 {
            offset: 0x228,
            value: FRCDH_FAULT | 0x0408,
        })
    );
    assert_eq!(primary_fault_offsets(usize::MAX - 7), Err(Error::AddressOverflow));
    assert_eq!(clear_primary_fault(usize::MAX, 1), Err(Error::AddressOverflow));
    assert_eq!(
        clear_fault_status(FSTS_AFO | FSTS_PPF),
        Some(RegisterStep::Write32 {
            offset: REG_FSTS,
            value: FSTS_AFO,
        })
    );
    assert_eq!(clear_fault_status(FSTS_PPF), None);
}

#[test]
fn plan_is_performed_in_order_up_to_a_failure() {
    let root_page = root_memory();
    let ring = Memory::new(0x7000_0000, 256 * QI_ENTRY_BYTES);
    let mut unit: VtdUnit<VtdSecondLevelPte, 256> = VtdUnit::new(
        unit_info(Some(0), 0, 0),
        register_window(),
        root_table(&root_page),
    );
    unit.install_queued_invalidation(queue_backing(&ring, 0x20_0000, 256))
        .unwrap();
    let plan = VtdInvalidationPlan {
        descriptors: vec![
            VtdQueuedInvalidationDescriptor::from_words(1, 11),
            VtdQueuedInvalidationDescriptor::from_words(2, 12),
            VtdQueuedInvalidationDescriptor::from_words(3, 13),
        ],
        scope: InvalidateScope::Leaf,
    };
    let slot = |index: usize| ring.words(VirtAddr::from_usize(ring.base + index * QI_ENTRY_BYTES));
    let head = Cell::new(0usize);
    let refuse_from = Cell::new(usize::MAX);
    let mut device = QueueCallbacks::new(
        |write: SlotWrite| ring.write_slot(write),
        || Ok(head.get()),
        |tail: usize| {
            head.set(tail);
            if tail >= refuse_from.get() {
                Err(Error::InvalidRange)
            } else {
                Ok(())
            }
        },
        || Ok(()),
    );

    assert_eq!(unit.perform(&plan, &mut device), Ok(InvalidateScope::Leaf));
    assert_eq!((slot(0), slot(1), slot(2)), ((1, 11), (2, 12), (3, 13)));
    assert_eq!(head.get(), 3 * QI_ENTRY_BYTES);

    refuse_from.set(5 * QI_ENTRY_BYTES);
    assert_eq!(unit.perform(&plan, &mut device), Err(Error::InvalidRange));
    assert_eq!((slot(3), slot(4), slot(5)), ((1, 11), (2, 12), (0, 0)));
    assert_eq!(head.get(), 5 * QI_ENTRY_BYTES);

    refuse_from.set(usize::MAX);
    assert_eq!(unit.submit_all(&[], &mut device), Ok(()));
    assert_eq!(unit.submit_all(&plan.descriptors[2..], &mut device), Ok(()));
    assert_eq!(slot(5), (3, 13));
}
