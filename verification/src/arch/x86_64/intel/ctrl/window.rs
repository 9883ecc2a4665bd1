//! Descriptor tables and invalidation rings as a register window works on them.

use vstd::prelude::*;

use super::super::caps::{VtdCapability, VtdExtendedCapability};
use super::super::info::{VtdDomain, VtdIoDomain};
use super::invalidation::VtdQueuedInvalidationDescriptor;
use super::registers::VtdRegisterWindow;
use super::remap::{
    write_interrupt_remap_entry, VtdInterruptEntry, VtdInterruptRemapEntry,
    VtdInterruptRemapTableBacking, VtdRemappedMsi,
};
use super::tables::{
    write_context_entry, write_root_entry, VtdContextEntry, VtdContextTableBacking, VtdRootEntry,
    VtdRootTableBacking,
};
use crate::addr::IoviAddr;
use crate::caps::Binding;
use crate::ctrl::TableWrite;
use crate::device::QueueDevice;
use crate::error::Error;
use crate::firm::pcie::PciDevice;
use crate::memory::{PageSize, PageTableEntry};
use crate::queue::CommandQueue;

verus! {

/// What routing one interrupt takes: its table entry is written, then the
/// unit's copy of the entry is invalidated; the device is given the message.
#[derive(Clone, Copy, Debug, PartialEq, Eq, Structural)]
pub struct VtdRemapUpdate {
    pub write: TableWrite,
    pub cache: VtdQueuedInvalidationDescriptor,
    pub msi: VtdRemappedMsi,
}

/// Entries of the descriptor tables: which words are to be written, and where.
impl<Entry> VtdRegisterWindow<Entry> where Entry: PageTableEntry {
    pub fn write_root_entry(
        &self,
        table: VtdRootTableBacking,
        bus: u8,
        entry: VtdRootEntry,
    ) -> (r: Result<TableWrite, Error>)
        ensures
            r == super::tables::root_write(table, bus, entry),
    {
        write_root_entry(table, bus, entry)
    }

    pub fn clear_root_entry(&self, table: VtdRootTableBacking, bus: u8) -> (r: Result<
        TableWrite,
        Error,
    >)
        ensures
            r == super::tables::root_write(table, bus, VtdRootEntry { low: 0, high: 0 }),
    {
        self.write_root_entry(table, bus, VtdRootEntry::disabled())
    }

    pub fn write_context_entry(
        &self,
        table: VtdContextTableBacking,
        client: PciDevice,
        entry: VtdContextEntry,
    ) -> (r: Result<TableWrite, Error>)
        ensures
            r == super::tables::context_write(table, client, entry),
    {
        write_context_entry(table, client, entry)
    }

    pub fn clear_context_entry(&self, table: VtdContextTableBacking, client: PciDevice) -> (r:
        Result<TableWrite, Error>)
        ensures
            r == super::tables::context_write(
                table,
                client,
                VtdContextEntry { low: 0, high: 0 },
            ),
    {
        self.write_context_entry(table, client, VtdContextEntry::disabled())
    }

    /// What carries out a binding, for a unit with the given capabilities.
    pub fn write_binding_context(
        &self,
        table: VtdContextTableBacking,
        binding: Binding<PciDevice, VtdDomain>,
        cap: VtdExtendedCapability,
    ) -> (r: Result<TableWrite, Error>)
        ensures
            r == (match VtdContextEntry::spec_from_binding(binding, cap) {
                Ok(entry) => super::tables::context_write(table, binding.client, entry),
                Err(error) => Err(error),
            }),
    {
        match VtdContextEntry::from_binding(binding, cap) {
            Ok(entry) => self.write_context_entry(table, binding.client(), entry),
            Err(error) => Err(error),
        }
    }

    pub fn write_interrupt_remap_entry(
        &self,
        table: VtdInterruptRemapTableBacking,
        entry: VtdInterruptEntry,
        remap: VtdInterruptRemapEntry,
    ) -> (r: Result<TableWrite, Error>)
        ensures
            r == super::remap::remap_write(table, entry, remap),
    {
        write_interrupt_remap_entry(table, entry, remap)
    }

    pub fn clear_interrupt_remap_entry(
        &self,
        table: VtdInterruptRemapTableBacking,
        entry: VtdInterruptEntry,
    ) -> (r: Result<TableWrite, Error>)
        ensures
            r == super::remap::remap_write(
                table,
                entry,
                VtdInterruptRemapEntry { low: 0, high: 0 },
            ),
    {
        self.write_interrupt_remap_entry(table, entry, VtdInterruptRemapEntry::disabled())
    }

    /// What routes the interrupts that select `entry`.
    pub fn compose_interrupt_remap(
        &self,
        table: VtdInterruptRemapTableBacking,
        entry: VtdInterruptEntry,
        subhandle: u16,
        remap: VtdInterruptRemapEntry,
    ) -> (r: Result<VtdRemapUpdate, Error>)
        ensures
            r == (match super::remap::remap_write(table, entry, remap) {
                Ok(write) => Ok(
                    VtdRemapUpdate {
                        write,
                        cache: VtdQueuedInvalidationDescriptor::spec_interrupt_entry_cache(entry),
                        msi: VtdRemappedMsi::of(entry, subhandle),
                    },
                ),
                Err(error) => Err(error),
            }),
    {
        match self.write_interrupt_remap_entry(table, entry, remap) {
            Ok(write) => Ok(
                VtdRemapUpdate {
                    write,
                    cache: VtdQueuedInvalidationDescriptor::interrupt_entry_cache(entry),
                    msi: VtdRemappedMsi::new(entry, subhandle),
                },
            ),
            Err(error) => Err(error),
        }
    }
}

/// Submissions to a ring that the caller holds. The callbacks are those of
/// [`CommandQueue::submit`], on the window's head, tail and status registers.
impl<Entry> VtdRegisterWindow<Entry> where Entry: PageTableEntry {
    pub fn submit_queued_invalidation<const N: usize, D: QueueDevice>(
        &self,
        queue: &mut CommandQueue<N>,
        descriptor: VtdQueuedInvalidationDescriptor,
        device: &mut D,
    ) -> (r: Result<(), Error>)
        requires
            old(queue).wf(),
            old(queue)@.claim < usize::MAX,
            old(device).ready(),
        ensures
            final(device).ready(),
            final(device).unused() == old(device).unused(),
            final(queue).wf(),
            super::invalidation::descriptor_carried_out(
                descriptor,
                old(queue)@,
                final(queue)@,
                old(device).log(),
                final(device).log(),
                r,
            ),
            old(queue)@.idle() && r is Ok ==> final(queue)@.idle(),
    {
        descriptor.submit_to_device(queue, device)
    }

    /// Invalidates all context entries.
    pub fn invalidate_context_global<const N: usize, D: QueueDevice>(
        &self,
        queue: &mut CommandQueue<N>,
        device: &mut D,
    ) -> (r: Result<(), Error>)
        requires
            old(queue).wf(),
            old(queue)@.claim < usize::MAX,
            old(device).ready(),
        ensures
            final(device).ready(),
            final(device).unused() == old(device).unused(),
            final(queue).wf(),
            super::invalidation::descriptor_carried_out(
                VtdQueuedInvalidationDescriptor::spec_context_global(),
                old(queue)@,
                final(queue)@,
                old(device).log(),
                final(device).log(),
                r,
            ),
            old(queue)@.idle() && r is Ok ==> final(queue)@.idle(),
    {
        self.submit_queued_invalidation(
            queue,
            VtdQueuedInvalidationDescriptor::context_global(),
            device,
        )
    }

    /// Invalidates the context entry of one requester.
    pub fn invalidate_context_device<const N: usize, D: QueueDevice>(
        &self,
        queue: &mut CommandQueue<N>,
        client: PciDevice,
        device: &mut D,
    ) -> (r: Result<(), Error>)
        requires
            old(queue).wf(),
            old(queue)@.claim < usize::MAX,
            old(device).ready(),
        ensures
            final(device).ready(),
            final(device).unused() == old(device).unused(),
            final(queue).wf(),
            super::invalidation::descriptor_carried_out(
                VtdQueuedInvalidationDescriptor::spec_context_device(client),
                old(queue)@,
                final(queue)@,
                old(device).log(),
                final(device).log(),
                r,
            ),
            old(queue)@.idle() && r is Ok ==> final(queue)@.idle(),
    {
        self.submit_queued_invalidation(
            queue,
            VtdQueuedInvalidationDescriptor::context_device(client),
            device,
        )
    }

    /// Invalidates all translations.
    pub fn invalidate_iotlb_global<const N: usize, D: QueueDevice>(
        &self,
        queue: &mut CommandQueue<N>,
        cap: VtdCapability,
        device: &mut D,
    ) -> (r: Result<(), Error>)
        requires
            old(queue).wf(),
            old(queue)@.claim < usize::MAX,
            old(device).ready(),
        ensures
            final(device).ready(),
            final(device).unused() == old(device).unused(),
            final(queue).wf(),
            super::invalidation::descriptor_carried_out(
                VtdQueuedInvalidationDescriptor::spec_iotlb_global(cap),
                old(queue)@,
                final(queue)@,
                old(device).log(),
                final(device).log(),
                r,
            ),
            old(queue)@.idle() && r is Ok ==> final(queue)@.idle(),
    {
        self.submit_queued_invalidation(
            queue,
            VtdQueuedInvalidationDescriptor::iotlb_global(cap),
            device,
        )
    }

    /// Invalidates the translations of one domain.
    pub fn invalidate_iotlb_domain<const N: usize, D: QueueDevice>(
        &self,
        queue: &mut CommandQueue<N>,
        domain: VtdIoDomain,
        cap: VtdCapability,
        device: &mut D,
    ) -> (r: Result<(), Error>)
        requires
            old(queue).wf(),
            old(queue)@.claim < usize::MAX,
            old(device).ready(),
        ensures
            final(device).ready(),
            final(device).unused() == old(device).unused(),
            final(queue).wf(),
            super::invalidation::descriptor_carried_out(
                VtdQueuedInvalidationDescriptor::spec_iotlb_domain(domain, cap),
                old(queue)@,
                final(queue)@,
                old(device).log(),
                final(device).log(),
                r,
            ),
            old(queue)@.idle() && r is Ok ==> final(queue)@.idle(),
    {
        self.submit_queued_invalidation(
            queue,
            VtdQueuedInvalidationDescriptor::iotlb_domain(domain, cap),
            device,
        )
    }

    /// Invalidates one leaf of a domain, where the unit can do that.
    pub fn invalidate_iotlb_page<const N: usize, D: QueueDevice>(
        &self,
        queue: &mut CommandQueue<N>,
        domain: VtdIoDomain,
        iova: IoviAddr<u64>,
        granule: PageSize,
        cap: VtdCapability,
        device: &mut D,
    ) -> (r: Result<(), Error>)
        requires
            old(queue).wf(),
            old(queue)@.claim < usize::MAX,
            old(device).ready(),
        ensures
            final(device).ready(),
            final(device).unused() == old(device).unused(),
            final(queue).wf(),
            match VtdQueuedInvalidationDescriptor::spec_iotlb_leaf(domain, iova@, granule, cap) {
                Ok(descriptor) => {
                    &&& super::invalidation::descriptor_carried_out(
                        descriptor,
                        old(queue)@,
                        final(queue)@,
                        old(device).log(),
                        final(device).log(),
                        r,
                    )
                    &&& old(queue)@.idle() && r is Ok ==> final(queue)@.idle()
                },
                Err(error) => r == Err::<(), Error>(error) && final(queue)@ == old(queue)@
                    && final(device).log() == old(device).log(),
            },
    {
        match VtdQueuedInvalidationDescriptor::iotlb_page(domain, iova, granule, cap) {
            Ok(descriptor) => self.submit_queued_invalidation(
                queue,
                descriptor,
                device,
            ),
            Err(error) => Err(error),
        }
    }
}

} // verus!
