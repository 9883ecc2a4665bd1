//! State of one remapping unit, and what each operation on it takes.

use vstd::prelude::*;

use super::super::info::{VtdDomain, VtdInfo};
use super::fault::{VtdFault, VtdFaultPoll};
use super::invalidation::{
    queued_invalidation_table_address, VtdInvalidationPlan, VtdQueuedInvalidationDescriptor,
};
use super::registers::{RegisterStep, VtdRegisterWindow, GSTS_QIES};
use super::remap::{VtdInterruptEntry, VtdInterruptRemapTableBacking};
use super::tables::{
    write_context_entry, write_root_entry, VtdContextEntry, VtdContextTableBacking, VtdRootEntry,
    VtdRootTableBacking,
};
use crate::addr::IoviAddr;
use crate::caps::{Binding, BindingSelector, BindingTarget};
use crate::ctrl::{Invalidate, InvalidateScope, TableWrite};
use crate::device::QueueDevice;
use crate::error::Error;
use crate::firm::pcie::PciDevice;
use crate::memory::{PageSize, PageTableEntry};
use crate::queue::{CommandQueue, CommandQueueBacking, QueueView};

verus! {

/// What a requester's binding takes: its context entry is written, then the
/// unit's copy of the entry and the domain's translations are invalidated.
#[derive(Clone, Copy, Debug, PartialEq, Eq, Structural)]
pub struct VtdContextUpdate {
    pub write: TableWrite,
    pub context: VtdQueuedInvalidationDescriptor,
    pub iotlb: VtdQueuedInvalidationDescriptor,
}

/// What turning translation on starts with.
#[derive(Debug, PartialEq, Eq)]
pub struct VtdTranslationStart {
    /// The accesses that set the unit's root table.
    pub steps: Vec<RegisterStep>,
    /// Whether translation can be turned on behind them.
    pub ready: Result<(), Error>,
}

/// Runtime state for one Intel VT-d remapping unit.
#[derive(Debug)]
pub struct VtdUnit<Entry, const QN: usize> where Entry: PageTableEntry {
    info: VtdInfo,
    registers: VtdRegisterWindow<Entry>,
    root_table: VtdRootTableBacking,
    context_tables: [Option<VtdContextTableBacking>; 256],
    queue: CommandQueue<QN>,
    interrupt_remap_table: Option<VtdInterruptRemapTableBacking>,
}

/// What a unit knows.
pub struct UnitView<Entry> where Entry: PageTableEntry {
    pub info: VtdInfo,
    pub registers: VtdRegisterWindow<Entry>,
    pub root_table: VtdRootTableBacking,
    pub context_tables: Seq<Option<VtdContextTableBacking>>,
    pub queue: QueueView,
    pub interrupt_remap_table: Option<VtdInterruptRemapTableBacking>,
}

impl<Entry> UnitView<Entry> where Entry: PageTableEntry {
    /// Whether a requester can be one of the unit's: a unit of one segment has
    /// none of another.
    pub open spec fn in_segment(self, client: PciDevice) -> bool {
        self.info.base.segment matches Some(segment) ==> segment == client.spec_segment()
    }

    pub open spec fn table_of(self, client: PciDevice) -> Option<VtdContextTableBacking> {
        self.context_tables[client.spec_bdf().spec_bus() as int]
    }

    /// The update that writes `entry` for a requester.
    pub open spec fn context_update(
        self,
        domain: VtdDomain,
        client: PciDevice,
        table: VtdContextTableBacking,
        entry: VtdContextEntry,
    ) -> Result<VtdContextUpdate, Error> {
        match super::tables::context_write(table, client, entry) {
            Ok(write) => Ok(
                VtdContextUpdate {
                    write,
                    context: VtdQueuedInvalidationDescriptor::spec_context_device(client),
                    iotlb: VtdQueuedInvalidationDescriptor::spec_iotlb_domain(
                        domain.id,
                        self.info.cap,
                    ),
                },
            ),
            Err(error) => Err(error),
        }
    }

    /// The update that carries out a binding, for the domain that the unit's
    /// controller translates by.
    pub open spec fn binding_update(
        self,
        active: VtdDomain,
        binding: Binding<PciDevice, VtdDomain>,
    ) -> Result<VtdContextUpdate, Error> {
        if binding.selector != BindingSelector::Default {
            Err(Error::FeatureUnavailable)
        } else if !self.in_segment(binding.client) {
            Err(Error::InvalidClient)
        } else if binding.target matches BindingTarget::Domain(domain) && domain != active {
            Err(Error::InvalidAddressSpace)
        } else {
            match self.table_of(binding.client) {
                None => Err(Error::ControllerUnavailable),
                Some(table) => match VtdContextEntry::spec_from_binding(binding, self.info.ecap) {
                    Err(error) => Err(error),
                    Ok(entry) => self.context_update(active, binding.client, table, entry),
                },
            }
        }
    }

    /// The update that takes a requester's binding away.
    pub open spec fn unbinding_update(
        self,
        domain: VtdDomain,
        client: PciDevice,
        selector: BindingSelector,
    ) -> Result<VtdContextUpdate, Error> {
        if selector != BindingSelector::Default {
            Err(Error::FeatureUnavailable)
        } else if !self.in_segment(client) {
            Err(Error::InvalidClient)
        } else {
            match self.table_of(client) {
                None => Err(Error::ControllerUnavailable),
                Some(table) => self.context_update(
                    domain,
                    client,
                    table,
                    VtdContextEntry { low: 0, high: 0 },
                ),
            }
        }
    }
}

impl<Entry, const QN: usize> View for VtdUnit<Entry, QN> where Entry: PageTableEntry {
    type V = UnitView<Entry>;

    closed spec fn view(&self) -> UnitView<Entry> {
        UnitView {
            info: self.info,
            registers: self.registers,
            root_table: self.root_table,
            context_tables: self.context_tables@,
            queue: self.queue@,
            interrupt_remap_table: self.interrupt_remap_table,
        }
    }
}

impl<Entry, const QN: usize> VtdUnit<Entry, QN> where Entry: PageTableEntry {
    /// The queue is a valid one, and there is room for a table of each bus.
    pub closed spec fn wf(self) -> bool {
        self.queue.wf() && self.context_tables@.len() == 256
    }

    pub fn new(
        info: VtdInfo,
        registers: VtdRegisterWindow<Entry>,
        root_table: VtdRootTableBacking,
    ) -> (r: Self)
        ensures
            r.wf(),
            r@.info == info,
            r@.registers == registers,
            r@.root_table == root_table,
            r@.context_tables == Seq::new(256, |i: int| None::<VtdContextTableBacking>),
            r@.queue.backing is None,
            r@.queue.claim == 0,
            r@.interrupt_remap_table is None,
    {
        let unit = VtdUnit {
            info,
            registers,
            root_table,
            context_tables: [None;256],
            queue: CommandQueue::new(),
            interrupt_remap_table: None,
        };
        assert(unit.context_tables@ =~= Seq::new(256, |i: int| None::<VtdContextTableBacking>));
        unit
    }

    pub fn info(&self) -> (r: &VtdInfo)
        ensures
            *r == self@.info,
    {
        &self.info
    }

    pub fn registers(&self) -> (r: &VtdRegisterWindow<Entry>)
        ensures
            *r == self@.registers,
    {
        &self.registers
    }

    pub fn registers_mut(&mut self) -> (r: &mut VtdRegisterWindow<Entry>)
        ensures
            *r == old(self)@.registers,
            final(self)@ == (UnitView { registers: *final(r), ..old(self)@ }),
            old(self).wf() ==> final(self).wf(),
    {
        &mut self.registers
    }

    pub fn root_table(&self) -> (r: VtdRootTableBacking)
        ensures
            r == self@.root_table,
    {
        self.root_table
    }

    pub fn queue(&self) -> (r: &CommandQueue<QN>)
        ensures
            r@ == self@.queue,
            self.wf() ==> r.wf(),
    {
        &self.queue
    }

    pub fn interrupt_remap_table(&self) -> (r: Option<VtdInterruptRemapTableBacking>)
        ensures
            r == self@.interrupt_remap_table,
    {
        self.interrupt_remap_table
    }

    pub fn install_interrupt_remap_table(&mut self, table: VtdInterruptRemapTableBacking)
        requires
            old(self).wf(),
        ensures
            final(self).wf(),
            final(self)@ == (UnitView { interrupt_remap_table: Some(table), ..old(self)@ }),
    {
        self.interrupt_remap_table = Some(table);
    }

    /// Notes the context table of a bus, and says which root entry is to be
    /// written for it.
    pub fn install_context_table(&mut self, bus: u8, table: VtdContextTableBacking) -> (r: Result<
        TableWrite,
        Error,
    >)
        requires
            old(self).wf(),
            table.wf(),
        ensures
            final(self).wf(),
            ({
                let vaddr = old(self)@.root_table.spec_backing().spec_entry_vaddr(bus as usize);
                let entry = VtdRootEntry::pointing_at(table.spec_backing().spec_phys().start);
                match r {
                    Ok(write) => {
                        &&& vaddr == Ok::<crate::addr::VirtAddr, Error>(write.vaddr)
                        &&& write.low == entry.low
                        &&& write.high == entry.high
                        &&& final(self)@ == (UnitView {
                            context_tables: old(self)@.context_tables.update(
                                bus as int,
                                Some(table),
                            ),
                            ..old(self)@
                        })
                    },
                    Err(error) => {
                        &&& vaddr == Err::<crate::addr::VirtAddr, Error>(error)
                        &&& final(self)@ == old(self)@
                    },
                }
            }),
    {
        let entry = match VtdRootEntry::from_context_table(table) {
            Ok(entry) => entry,
            Err(error) => return Err(error),
        };
        let write = match write_root_entry(self.root_table, bus, entry) {
            Ok(write) => write,
            Err(error) => return Err(error),
        };
        self.context_tables[VtdRootTableBacking::bus_entry_index(bus)] = Some(table);
        Ok(write)
    }

    pub fn context_table(&self, bus: u8) -> (r: Option<VtdContextTableBacking>)
        requires
            self.wf(),
        ensures
            r == self@.context_tables[bus as int],
    {
        self.context_tables[VtdRootTableBacking::bus_entry_index(bus)]
    }

    /// Starts the invalidation queue over on a ring, and says which accesses
    /// hand the ring to the unit.
    pub fn install_queued_invalidation(&mut self, backing: CommandQueueBacking) -> (r: Result<
        Vec<RegisterStep>,
        Error,
    >)
        requires
            old(self).wf(),
            backing.wf(),
        ensures
            final(self).wf(),
            ({
                let fault = super::invalidation::queue_fault(backing);
                match r {
                    Ok(steps) => {
                        &&& fault is None
                        &&& backing.spec_entry_count() <= QN
                        &&& steps@ == super::registers::queue_steps(backing)
                            + super::registers::switch_steps(
                            super::registers::GCMD_QIE,
                            GSTS_QIES,
                            true,
                        )
                        &&& final(self)@.queue.backing == Some(backing)
                        &&& final(self)@.queue.claim == 0
                        &&& final(self)@.queue.idle()
                        &&& final(self)@ == (UnitView { queue: final(self)@.queue, ..old(self)@ })
                    },
                    Err(error) => {
                        &&& error == (if fault is Some {
                            fault->0
                        } else {
                            Error::InvalidRange
                        })
                        &&& fault is Some || backing.spec_entry_count() > QN
                        &&& final(self)@ == old(self)@
                    },
                }
            }),
    {
        match queued_invalidation_table_address(backing) {
            Ok(_) => {},
            Err(error) => return Err(error),
        }
        match self.queue.init(backing) {
            Ok(_) => {},
            Err(error) => return Err(error),
        }
        let mut steps = match self.registers.set_queued_invalidation_table(backing) {
            Ok(steps) => steps,
            Err(error) => return Err(error),
        };
        let mut enable = self.registers.enable_queued_invalidation();
        steps.append(&mut enable);
        Ok(steps)
    }

    /// What turning translation on starts with: the root table is set, and only
    /// then it counts whether the unit has a queue.
    pub fn begin_translation(&self) -> (r: Result<VtdTranslationStart, Error>)
        ensures
            ({
                let root = self@.root_table.spec_backing().spec_phys().start;
                match r {
                    Ok(start) => {
                        &&& root.0 % 0x1000 == 0
                        &&& start.steps@ == super::registers::root_table_steps(root)
                        &&& start.ready == (if self@.queue.backing is Some {
                            Ok::<(), Error>(())
                        } else {
                            Err(Error::ControllerUnavailable)
                        })
                    },
                    Err(error) => root.0 % 0x1000 != 0 && error == Error::InvalidGranule,
                }
            }),
    {
        let ready: Result<(), Error> = if self.queue.is_active() {
            Ok(())
        } else {
            Err(Error::ControllerUnavailable)
        };
        match self.registers.set_root_table(self.root_table) {
            Ok(steps) => Ok(VtdTranslationStart { steps, ready }),
            Err(error) => Err(error),
        }
    }

    /// The accesses that turn translation on, once the root table is set as
    /// [`VtdUnit::begin_translation`] says and the status was read: queued
    /// invalidation first, where it is off.
    pub fn enable_translation(&self, status: u32) -> (r: Result<Vec<RegisterStep>, Error>)
        ensures
            match r {
                Ok(steps) => {
                    &&& self@.queue.backing is Some
                    &&& steps@ == (if status & GSTS_QIES == 0 {
                        super::registers::switch_steps(super::registers::GCMD_QIE, GSTS_QIES, true)
                    } else {
                        Seq::empty()
                    }) + super::registers::switch_steps(
                        super::registers::GCMD_TE,
                        super::registers::GSTS_TES,
                        true,
                    )
                },
                Err(error) => self@.queue.backing is None && error == Error::ControllerUnavailable,
            },
    {
        if !self.queue.is_active() {
            return Err(Error::ControllerUnavailable);
        }
        let mut steps: Vec<RegisterStep> = if (status & GSTS_QIES) == 0 {
            self.registers.enable_queued_invalidation()
        } else {
            Vec::new()
        };
        let mut enable = self.registers.enable_translation();
        steps.append(&mut enable);
        Ok(steps)
    }

    fn validate_client(&self, client: PciDevice) -> (r: Result<(), Error>)
        ensures
            r == (if self@.in_segment(client) {
                Ok::<(), Error>(())
            } else {
                Err(Error::InvalidClient)
            }),
    {
        match self.info.base().segment() {
            Some(segment) => if segment != client.segment() {
                Err(Error::InvalidClient)
            } else {
                Ok(())
            },
            None => Ok(()),
        }
    }

    fn context_update(
        &self,
        domain: VtdDomain,
        client: PciDevice,
        table: VtdContextTableBacking,
        entry: VtdContextEntry,
    ) -> (r: Result<VtdContextUpdate, Error>)
        ensures
            r == self@.context_update(domain, client, table, entry),
    {
        match write_context_entry(table, client, entry) {
            Ok(write) => Ok(
                VtdContextUpdate {
                    write,
                    context: VtdQueuedInvalidationDescriptor::context_device(client),
                    iotlb: VtdQueuedInvalidationDescriptor::iotlb_domain(
                        domain.id(),
                        self.info.cap(),
                    ),
                },
            ),
            Err(error) => Err(error),
        }
    }

    /// What carries out a binding to the active domain, to pass-through, or to
    /// nothing.
    pub fn bind_context(&self, active: VtdDomain, binding: Binding<PciDevice, VtdDomain>) -> (r:
        Result<VtdContextUpdate, Error>)
        requires
            self.wf(),
        ensures
            r == self@.binding_update(active, binding),
    {
        if binding.selector() != BindingSelector::Default {
            return Err(Error::FeatureUnavailable);
        }
        match self.validate_client(binding.client()) {
            Ok(_) => {},
            Err(error) => return Err(error),
        }
        match binding.target() {
            BindingTarget::Domain(domain) => {
                if !domain.is_same(active) {
                    return Err(Error::InvalidAddressSpace);
                }
            },
            _ => {},
        }
        let table = match self.context_table(binding.client().bus()) {
            Some(table) => table,
            None => return Err(Error::ControllerUnavailable),
        };
        match VtdContextEntry::from_binding(binding, self.info.ecap()) {
            Ok(entry) => self.context_update(active, binding.client(), table, entry),
            Err(error) => Err(error),
        }
    }

    /// What takes a requester's binding away.
    pub fn unbind_context(
        &self,
        domain: VtdDomain,
        client: PciDevice,
        selector: BindingSelector,
    ) -> (r: Result<VtdContextUpdate, Error>)
        requires
            self.wf(),
        ensures
            r == self@.unbinding_update(domain, client, selector),
    {
        if selector != BindingSelector::Default {
            return Err(Error::FeatureUnavailable);
        }
        match self.validate_client(client) {
            Ok(_) => {},
            Err(error) => return Err(error),
        }
        match self.context_table(client.bus()) {
            Some(table) => self.context_update(domain, client, table, VtdContextEntry::disabled()),
            None => Err(Error::ControllerUnavailable),
        }
    }

    /// The descriptors that invalidate one leaf of a domain.
    pub fn invalidate_iotlb_page(
        &self,
        domain: super::super::info::VtdIoDomain,
        iova: IoviAddr<u64>,
        granule: PageSize,
    ) -> (r: VtdInvalidationPlan)
        ensures
            r@ == super::invalidation::PlanView::leaf(domain, iova@, granule, self@.info.cap),
    {
        super::invalidation::invalidate_iotlb_page(domain, iova, granule, self.info.cap())
    }

    /// The descriptors that invalidate a range of leaves of a domain.
    pub fn invalidate_iotlb_range(
        &self,
        domain: super::super::info::VtdIoDomain,
        start: IoviAddr<u64>,
        page_size: PageSize,
        count_pages: usize,
    ) -> (r: Result<VtdInvalidationPlan, Error>)
        ensures
            ({
                let plan = super::invalidation::PlanView::range(
                    domain,
                    start@,
                    page_size,
                    count_pages,
                    self@.info.cap,
                );
                match r {
                    Ok(made) => plan == Ok::<super::invalidation::PlanView, Error>(made@),
                    Err(error) => plan == Err::<super::invalidation::PlanView, Error>(error),
                }
            }),
    {
        super::invalidation::invalidate_iotlb_range(
            domain,
            start,
            page_size,
            count_pages,
            self.info.cap(),
        )
    }

    /// The descriptors that carry out a request for the active domain.
    pub fn invalidate(
        &self,
        active: VtdDomain,
        request: Invalidate<PciDevice, IoviAddr<u64>>,
    ) -> (r: Result<VtdInvalidationPlan, Error>)
        ensures
            ({
                let plan = super::invalidation::request_plan(active.id, self@.info.cap, request);
                match r {
                    Ok(made) => plan == Ok::<super::invalidation::PlanView, Error>(made@),
                    Err(error) => plan == Err::<super::invalidation::PlanView, Error>(error),
                }
            }),
    {
        super::invalidation::invalidate(active.id(), self.info.cap(), request)
    }

    /// What a fault status asks for next.
    pub fn poll_fault(&self, status: u32) -> (r: Result<VtdFaultPoll, Error>)
        ensures
            r == super::fault::fault_poll(self@.info, status),
    {
        super::fault::poll_fault(self.info, status)
    }

    /// The fault of the record at `index`, whose words were read.
    pub fn poll_primary_fault(&self, index: u16, low: u64, high: u64) -> (r: Result<
        VtdFault,
        Error,
    >)
        ensures
            match r {
                Ok(fault) => crate::bits::bit_set(high, 63) && super::fault::is_record(
                    fault,
                    match self@.info.base.segment {
                        Some(segment) => segment,
                        None => 0,
                    },
                    index,
                    low,
                    high,
                ),
                Err(error) => !crate::bits::bit_set(high, 63) && error
                    == Error::ControllerUnavailable,
            },
    {
        super::fault::poll_primary_fault(self.info, index, low, high)
    }

    /// Runs one submission of a descriptor through the unit's queue.
    pub fn submit_queued_invalidation<D: QueueDevice>(
        &mut self,
        descriptor: VtdQueuedInvalidationDescriptor,
        device: &mut D,
    ) -> (r: Result<(), Error>)
        requires
            old(self).wf(),
            old(self)@.queue.claim < usize::MAX,
            old(device).ready(),
        ensures
            final(device).ready(),
            final(device).unused() == old(device).unused(),
            final(self).wf(),
            final(self)@ == (UnitView { queue: final(self)@.queue, ..old(self)@ }),
            super::invalidation::descriptor_carried_out(
                descriptor,
                old(self)@.queue,
                final(self)@.queue,
                old(device).log(),
                final(device).log(),
                r,
            ),
            old(self)@.queue.idle() && r is Ok ==> final(self)@.queue.idle(),
    {
        descriptor.submit_to_device(&mut self.queue, device)
    }

    /// Runs one submission after the other, and stops at the first that fails.
    pub fn submit_all<D: QueueDevice>(
        &mut self,
        descriptors: &[VtdQueuedInvalidationDescriptor],
        device: &mut D,
    ) -> (r: Result<(), Error>)
        requires
            old(self).wf(),
            old(device).ready(),
            old(self)@.queue.claim + descriptors@.len() <= usize::MAX,
        ensures
            final(device).ready(),
            final(device).unused() == old(device).unused(),
            final(self).wf(),
            final(self)@ == (UnitView { queue: final(self)@.queue, ..old(self)@ }),
            super::invalidation::carried_out_in_order(
                descriptors@,
                old(self)@.queue,
                final(self)@.queue,
                old(device).log(),
                final(device).log(),
                r,
            ),
            old(self)@.queue.idle() && r is Ok ==> final(self)@.queue.idle(),
    {
        let ghost all = descriptors@;
        let mut i: usize = 0;
        assert(all.take(0).len() == 0);
        while i < descriptors.len()
            invariant
                all == descriptors@,
                i <= descriptors@.len(),
                self.wf(),
                device.ready(),
                device.unused() == old(device).unused(),
                self@ == (UnitView { queue: self@.queue, ..old(self)@ }),
                self@.queue.claim <= old(self)@.queue.claim + i,
                old(self)@.queue.claim + descriptors@.len() <= usize::MAX,
                super::invalidation::all_carried_out(
                    all.take(i as int),
                    old(self)@.queue,
                    self@.queue,
                    old(device).log(),
                    device.log(),
                ),
                old(self)@.queue.idle() ==> self@.queue.idle(),
            decreases descriptors@.len() - i,
        {
            let ghost queue = self@.queue;
            let ghost log = device.log();
            let r = self.submit_queued_invalidation(descriptors[i], device);
            proof {
                super::invalidation::lemma_descriptor_takes_one_ticket(
                    all[i as int],
                    queue,
                    self@.queue,
                    log,
                    device.log(),
                    r,
                );
            }
            match r {
                Ok(none) => {
                    proof {
                        assert(none == ());
                        let done = all.take(i + 1);
                        assert(done.drop_last() =~= all.take(i as int));
                        assert(done.last() == all[i as int]);
                    }
                },
                Err(error) => {
                    assert(super::invalidation::stopped_at(
                        all,
                        i as int,
                        old(self)@.queue,
                        self@.queue,
                        old(device).log(),
                        device.log(),
                        error,
                    ));
                    return Err(error);
                },
            }
            i = i + 1;
        }
        assert(all.take(i as int) =~= all);
        Ok(())
    }

    /// Carries out a plan: its descriptors are submitted in order, up to the
    /// first that fails.
    pub fn perform<D: QueueDevice>(&mut self, plan: &VtdInvalidationPlan, device: &mut D) -> (r:
        Result<InvalidateScope, Error>)
        requires
            old(self).wf(),
            old(device).ready(),
            old(self)@.queue.claim + plan@.descriptors.len() <= usize::MAX,
        ensures
            final(device).ready(),
            final(device).unused() == old(device).unused(),
            final(self).wf(),
            final(self)@ == (UnitView { queue: final(self)@.queue, ..old(self)@ }),
            r matches Ok(scope) ==> scope == plan@.scope,
            super::invalidation::carried_out_in_order(
                plan@.descriptors,
                old(self)@.queue,
                final(self)@.queue,
                old(device).log(),
                final(device).log(),
                match r {
                    Ok(_) => Ok(()),
                    Err(error) => Err(error),
                },
            ),
            old(self)@.queue.idle() && r is Ok ==> final(self)@.queue.idle(),
    {
        match self.submit_all(plan.descriptors.as_slice(), device) {
            Ok(_) => Ok(plan.scope),
            Err(error) => Err(error),
        }
    }
}

/// A binding of a requester to a domain that was accepted writes the entry that
/// translates by that domain, and invalidates what the unit holds of it.
pub proof fn law_bound_requester_is_translated_by_its_domain<Entry>(
    unit: UnitView<Entry>,
    active: VtdDomain,
    binding: Binding<PciDevice, VtdDomain>,
) where Entry: PageTableEntry
    requires
        binding.target == BindingTarget::Domain(active),
        unit.binding_update(active, binding) is Ok,
        super::tables::table_address(active.root.0 as u64) == active.root.0,
        active.id.wf(),
    ensures
        ({
            let update = unit.binding_update(active, binding)->Ok_0;
            let entry = VtdContextEntry { low: update.write.low, high: update.write.high };
            &&& entry.spec_page_table_root() == Some(active.root)
            &&& entry.spec_domain_id() == active.id.spec_id()
            &&& update.context.low >> 32 == binding.client.spec_bdf().0
            &&& (update.iotlb.low >> 16) & 0xffff == active.id.spec_id()
        }),
{
    super::tables::law_context_entry_round_trip(active);
    super::invalidation::law_descriptor_fields(
        binding.client,
        active.id,
        0,
        0,
        VtdInterruptEntry(0),
        unit.info.cap,
    );
}

/// Taking a binding away writes the same entry of the same table that the
/// binding wrote, and leaves the requester without a translation.
pub proof fn law_unbinding_clears_what_binding_wrote<Entry>(
    unit: UnitView<Entry>,
    active: VtdDomain,
    binding: Binding<PciDevice, VtdDomain>,
) where Entry: PageTableEntry
    requires
        unit.binding_update(active, binding) is Ok,
    ensures
        ({
            let bound = unit.binding_update(active, binding)->Ok_0;
            let cleared = unit.unbinding_update(active, binding.client, binding.selector);
            &&& cleared matches Ok(update) && update.write.vaddr == bound.write.vaddr
                && update.context == bound.context && update.iotlb == bound.iotlb
                && !(VtdContextEntry {
                low: update.write.low,
                high: update.write.high,
            }).spec_present()
        }),
{
    super::tables::law_context_entry_kinds();
}

} // verus!
