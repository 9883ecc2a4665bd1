//! Queued-invalidation descriptors, and the descriptors that carry out an
//! invalidation request.

use vstd::prelude::*;

use super::super::caps::VtdCapability;
use super::super::error::VtdError;
use super::super::info::VtdIoDomain;
use super::plan::VtdIotlbRangePlan;
use super::remap::VtdInterruptEntry;
use crate::addr::IoviAddr;
use crate::bits;
use crate::bytes;
use crate::ctrl::{Invalidate, InvalidateOutcome, InvalidateScope};
use crate::device::{QueueDevice, QueueEvent, QueueReport};
use crate::error::Error;
use crate::firm::pcie::PciDevice;
use crate::memory::PageSize;
use crate::queue::{CommandQueue, CommandQueueBacking, QueueView, SlotWrite};

verus! {

pub type VtdQueuedInvalidationQueue<const N: usize> = CommandQueue<N>;

pub const QI_ENTRY_BYTES: usize = 16;

pub const QI_MIN_ENTRIES: usize = 256;

/// More descriptors than this are replaced by one for the whole domain.
pub const IOTLB_RANGE_DOMAIN_INVALIDATION_THRESHOLD: usize = 32;

const QI_IOTLB_DW: u64 = 0x40;

const QI_IOTLB_DR: u64 = 0x80;

const PAGE_ADDR_MASK: u64 = 0xffff_ffff_ffff_f000;

const IVA_AM_MASK: u8 = 0x3f;

/// The drain bits of an IOTLB invalidation, as far as the unit offers them:
/// writes by bit 6 and reads by bit 7.
pub open spec fn drain_bits(cap: VtdCapability) -> u64 {
    (if bits::bit_set(cap.0, 55) {
        0x80u64
    } else {
        0
    }) | (if bits::bit_set(cap.0, 54) {
        0x40u64
    } else {
        0
    })
}

fn iotlb_drain_bits(cap: VtdCapability) -> (r: u64)
    ensures
        r == drain_bits(cap),
{
    let read: u64 = if cap.read_draining() {
        QI_IOTLB_DR
    } else {
        0
    };
    let write: u64 = if cap.write_draining() {
        QI_IOTLB_DW
    } else {
        0
    };
    read | write
}

/// One submission of a descriptor, which added to the log of the device what it
/// did: the descriptor's two words are the 16 bytes of the command. A tail write
/// that was refused fails the descriptor once its submission has succeeded.
pub open spec fn descriptor_carried_out(
    descriptor: VtdQueuedInvalidationDescriptor,
    before: QueueView,
    after: QueueView,
    log: Seq<QueueEvent>,
    extended: Seq<QueueEvent>,
    r: Result<(), Error>,
) -> bool {
    &&& log.is_prefix_of(extended)
    &&& exists|command: Seq<u8>, report: QueueReport|
        {
            &&& command.len() == 16
            &&& bytes::le64(command, 0) == descriptor.low
            &&& bytes::le64(command, 8) == descriptor.high
            &&& #[trigger] crate::device::reported(
                before,
                after,
                command,
                extended.skip(log.len() as int),
                report,
            )
            &&& r == report.spec_outcome()
        }
}

/// The descriptors were submitted one after the other, and all of them
/// succeeded.
pub open spec fn all_carried_out(
    descriptors: Seq<VtdQueuedInvalidationDescriptor>,
    before: QueueView,
    after: QueueView,
    log: Seq<QueueEvent>,
    extended: Seq<QueueEvent>,
) -> bool
    decreases descriptors.len(),
{
    if descriptors.len() == 0 {
        after == before && extended == log
    } else {
        exists|queue: QueueView, logged: Seq<QueueEvent>|
            {
                &&& all_carried_out(descriptors.drop_last(), before, queue, log, logged)
                &&& #[trigger] descriptor_carried_out(
                    descriptors.last(),
                    queue,
                    after,
                    logged,
                    extended,
                    Ok(()),
                )
            }
    }
}

/// The descriptors before `k` were submitted one after the other and succeeded,
/// descriptor `k` failed, and no other was submitted.
pub open spec fn stopped_at(
    descriptors: Seq<VtdQueuedInvalidationDescriptor>,
    k: int,
    before: QueueView,
    after: QueueView,
    log: Seq<QueueEvent>,
    extended: Seq<QueueEvent>,
    error: Error,
) -> bool {
    &&& 0 <= k < descriptors.len()
    &&& exists|queue: QueueView, logged: Seq<QueueEvent>|
        {
            &&& all_carried_out(descriptors.take(k), before, queue, log, logged)
            &&& #[trigger] descriptor_carried_out(
                descriptors[k],
                queue,
                after,
                logged,
                extended,
                Err(error),
            )
        }
}

/// What submitting the descriptors one after the other comes to: all of them
/// succeed, or the first that fails ends it.
pub open spec fn carried_out_in_order(
    descriptors: Seq<VtdQueuedInvalidationDescriptor>,
    before: QueueView,
    after: QueueView,
    log: Seq<QueueEvent>,
    extended: Seq<QueueEvent>,
    r: Result<(), Error>,
) -> bool {
    match r {
        Ok(_) => all_carried_out(descriptors, before, after, log, extended),
        Err(error) => exists|k: int| #[trigger]
            stopped_at(descriptors, k, before, after, log, extended, error),
    }
}

/// What was done for descriptors that were carried out one after the other
/// stands behind what was done before.
pub proof fn law_carried_out_descriptors_extend_the_log(
    descriptors: Seq<VtdQueuedInvalidationDescriptor>,
    before: QueueView,
    after: QueueView,
    log: Seq<QueueEvent>,
    extended: Seq<QueueEvent>,
)
    requires
        all_carried_out(descriptors, before, after, log, extended),
    ensures
        log.is_prefix_of(extended),
    decreases descriptors.len(),
{
    if descriptors.len() > 0 {
        let (queue, logged) = choose|queue: QueueView, logged: Seq<QueueEvent>|
            {
                &&& all_carried_out(descriptors.drop_last(), before, queue, log, logged)
                &&& #[trigger] descriptor_carried_out(
                    descriptors.last(),
                    queue,
                    after,
                    logged,
                    extended,
                    Ok(()),
                )
            };
        law_carried_out_descriptors_extend_the_log(
            descriptors.drop_last(),
            before,
            queue,
            log,
            logged,
        );
        assert(log =~= extended.take(log.len() as int)) by {
            assert(log =~= logged.take(log.len() as int));
            assert(logged =~= extended.take(logged.len() as int));
        }
    }
}

/// The submission of a descriptor takes at most one ticket.
pub(crate) proof fn lemma_descriptor_takes_one_ticket(
    descriptor: VtdQueuedInvalidationDescriptor,
    before: QueueView,
    after: QueueView,
    log: Seq<QueueEvent>,
    extended: Seq<QueueEvent>,
    r: Result<(), Error>,
)
    requires
        descriptor_carried_out(descriptor, before, after, log, extended, r),
        before.claim < usize::MAX,
    ensures
        before.claim <= after.claim <= before.claim + 1,
{
    let events = extended.skip(log.len() as int);
    let (command, report) = choose|command: Seq<u8>, report: QueueReport|
        {
            &&& command.len() == 16
            &&& bytes::le64(command, 0) == descriptor.low
            &&& bytes::le64(command, 8) == descriptor.high
            &&& #[trigger] crate::device::reported(before, after, command, events, report)
            &&& r == report.spec_outcome()
        };
    crate::device::law_submission_takes_one_ticket(
        before,
        after,
        command,
        events,
        report.submitted,
    );
}

/// One submission of a descriptor by four callbacks: its two words are the 16
/// bytes of the command.
pub open spec fn descriptor_submission<WS, RH, WT, CE>(
    descriptor: VtdQueuedInvalidationDescriptor,
    before: QueueView,
    after: QueueView,
    write_slot: WS,
    read_head: RH,
    write_tail: WT,
    check_error: CE,
    r: Result<(), Error>,
) -> bool where
    WS: Fn(SlotWrite),
    RH: Fn() -> Result<usize, Error>,
    WT: Fn(usize),
    CE: Fn() -> Result<(), Error>,
 {
    exists|command: Seq<u8>|
        command.len() == 16 && bytes::le64(command, 0) == descriptor.low && bytes::le64(command, 8)
            == descriptor.high && #[trigger] crate::queue::submission(
            before,
            after,
            command,
            write_slot,
            read_head,
            write_tail,
            check_error,
            r,
        )
}

/// Raw queued-invalidation descriptor, ready to be written to a VT-d QI ring.
#[derive(Clone, Copy, Debug, PartialEq, Eq, Structural)]
pub struct VtdQueuedInvalidationDescriptor {
    pub low: u64,
    pub high: u64,
}

impl VtdQueuedInvalidationDescriptor {
    pub fn from_words(low: u64, high: u64) -> (r: Self)
        ensures
            r == (VtdQueuedInvalidationDescriptor { low, high }),
    {
        VtdQueuedInvalidationDescriptor { low, high }
    }

    pub fn low(self) -> (r: u64)
        ensures
            r == self.low,
    {
        self.low
    }

    pub fn high(self) -> (r: u64)
        ensures
            r == self.high,
    {
        self.high
    }

    /// The descriptor as hardware reads it.
    pub fn bytes(self) -> (r: [u8; 16])
        ensures
            bytes::le64(r@, 0) == self.low,
            bytes::le64(r@, 8) == self.high,
    {
        bytes::put_u64_pair(self.low, self.high)
    }

    /// Runs one submission of the descriptor on a device.
    pub fn submit_to_device<const N: usize, D: QueueDevice>(
        self,
        queue: &mut CommandQueue<N>,
        device: &mut D,
    ) -> (r: Result<(), Error>)
        requires
            old(queue).wf(),
            old(queue)@.claim < usize::MAX,
            old(device).ready(),
        ensures
            final(device).ready(),
            final(device).unused() == old(device).unused(),
            final(queue).wf(),
            descriptor_carried_out(
                self,
                old(queue)@,
                final(queue)@,
                old(device).log(),
                final(device).log(),
                r,
            ),
            old(queue)@.idle() && r is Ok ==> final(queue)@.idle(),
    {
        let command = self.bytes();
        let report = queue.submit_to_device(vstd::array::array_as_slice(&command), device);
        report.outcome()
    }

    /// Runs one submission of the descriptor.
    pub fn submit_to<const N: usize, WS, RH, WT, CE>(
        self,
        queue: &mut CommandQueue<N>,
        write_slot: WS,
        read_head: RH,
        write_tail: WT,
        check_error: CE,
    ) -> (r: Result<(), Error>) where
        WS: Fn(SlotWrite),
        RH: Fn() -> Result<usize, Error>,
        WT: Fn(usize),
        CE: Fn() -> Result<(), Error>,

        requires
            old(queue).wf(),
            old(queue)@.claim < usize::MAX,
            forall|write: SlotWrite| call_requires(write_slot, (write,)),
            call_requires(read_head, ()),
            forall|tail: usize| call_requires(write_tail, (tail,)),
            call_requires(check_error, ()),
        ensures
            final(queue).wf(),
            descriptor_submission(
                self,
                old(queue)@,
                final(queue)@,
                write_slot,
                read_head,
                write_tail,
                check_error,
                r,
            ),
            old(queue)@.idle() && r is Ok ==> final(queue)@.idle(),
    {
        queue.submit(self.bytes(), write_slot, read_head, write_tail, check_error)
    }

    /// All context entries.
    pub open spec fn spec_context_global() -> Self {
        VtdQueuedInvalidationDescriptor { low: 0x11, high: 0 }
    }

    pub fn context_global() -> (r: Self)
        ensures
            r == Self::spec_context_global(),
    {
        Self::from_words(0x11, 0)
    }

    /// The context entry of one requester, whose identity is in bits `[47:32]`.
    pub open spec fn spec_context_device(client: PciDevice) -> Self {
        VtdQueuedInvalidationDescriptor {
            low: 0x31u64 | ((client.spec_bdf().0 as u64) << 32),
            high: 0,
        }
    }

    pub fn context_device(client: PciDevice) -> (r: Self)
        ensures
            r == Self::spec_context_device(client),
    {
        Self::from_words(0x31u64 | ((client.bdf().as_u16() as u64) << 32), 0)
    }

    /// All translations.
    pub open spec fn spec_iotlb_global(cap: VtdCapability) -> Self {
        VtdQueuedInvalidationDescriptor { low: 0x12u64 | drain_bits(cap), high: 0 }
    }

    pub fn iotlb_global(cap: VtdCapability) -> (r: Self)
        ensures
            r == Self::spec_iotlb_global(cap),
    {
        Self::from_words(0x12u64 | iotlb_drain_bits(cap), 0)
    }

    /// The translations of one domain, whose identity is in bits `[31:16]`.
    pub open spec fn spec_iotlb_domain(domain: VtdIoDomain, cap: VtdCapability) -> Self {
        VtdQueuedInvalidationDescriptor {
            low: 0x22u64 | drain_bits(cap) | ((domain.spec_id() as u64) << 16),
            high: 0,
        }
    }

    pub fn iotlb_domain(domain: VtdIoDomain, cap: VtdCapability) -> (r: Self)
        ensures
            r == Self::spec_iotlb_domain(domain, cap),
    {
        Self::from_words(0x22u64 | iotlb_drain_bits(cap) | ((domain.id() as u64) << 16), 0)
    }

    /// The translations of one domain for the pages of a naturally aligned
    /// block. The high word holds the page address, and in bits `[5:0]` the
    /// number of low page bits that are not compared.
    pub open spec fn spec_iotlb_page(
        domain: VtdIoDomain,
        iova: usize,
        address_mask: u8,
        cap: VtdCapability,
    ) -> Self {
        VtdQueuedInvalidationDescriptor {
            low: 0x32u64 | drain_bits(cap) | ((domain.spec_id() as u64) << 16),
            high: ((iova as u64) & 0xffff_ffff_ffff_f000) | (address_mask as u64),
        }
    }

    /// The descriptor for one leaf, for a unit that can invalidate it alone.
    pub open spec fn spec_iotlb_leaf(
        domain: VtdIoDomain,
        iova: usize,
        granule: PageSize,
        cap: VtdCapability,
    ) -> Result<Self, Error> {
        match cap.spec_page_mask(granule) {
            Some(mask) => Ok(Self::spec_iotlb_page(domain, iova, mask, cap)),
            None => Err(Error::FeatureUnavailable),
        }
    }

    pub fn iotlb_page(
        domain: VtdIoDomain,
        iova: IoviAddr<u64>,
        granule: PageSize,
        cap: VtdCapability,
    ) -> (r: Result<Self, Error>)
        ensures
            r == Self::spec_iotlb_leaf(domain, iova@, granule, cap),
    {
        match cap.page_selective_address_mask(granule) {
            Some(address_mask) => Self::iotlb_page_with_address_mask(
                domain,
                iova,
                address_mask,
                cap,
            ),
            None => Err(Error::from(VtdError::PageSelectiveInvalidationUnavailable)),
        }
    }

    pub fn iotlb_page_with_address_mask(
        domain: VtdIoDomain,
        iova: IoviAddr<u64>,
        address_mask: u8,
        cap: VtdCapability,
    ) -> (r: Result<Self, Error>)
        ensures
            r == (if bits::bit_set(cap.0, 39) && address_mask <= cap.spec_max_mask()
                && address_mask <= 0x3f {
                Ok(Self::spec_iotlb_page(domain, iova@, address_mask, cap))
            } else {
                Err(Error::FeatureUnavailable)
            }),
    {
        if !cap.page_selective_invalidation() || address_mask > cap.max_address_mask_value()
            || address_mask > IVA_AM_MASK {
            return Err(Error::from(VtdError::PageSelectiveInvalidationUnavailable));
        }
        Ok(
            Self::from_words(
                0x32u64 | iotlb_drain_bits(cap) | ((domain.id() as u64) << 16),
                ((iova.as_usize() as u64) & PAGE_ADDR_MASK) | (address_mask as u64),
            ),
        )
    }

    /// The cached copy of one remapping entry, whose index is in bits `[47:32]`.
    pub open spec fn spec_interrupt_entry_cache(entry: VtdInterruptEntry) -> Self {
        VtdQueuedInvalidationDescriptor { low: 0x14u64 | ((entry.0 as u64) << 32), high: 0 }
    }

    pub fn interrupt_entry_cache(entry: VtdInterruptEntry) -> (r: Self)
        ensures
            r == Self::spec_interrupt_entry_cache(entry),
    {
        Self::from_words(0x14u64 | ((entry.as_u16() as u64) << 32), 0)
    }
}

impl Default for VtdQueuedInvalidationDescriptor {
    fn default() -> (r: Self)
        ensures
            r == (VtdQueuedInvalidationDescriptor { low: 0, high: 0 }),
    {
        Self::from_words(0, 0)
    }
}

/// The type of every descriptor is in bits `[3:0]` and its granularity in bits
/// `[5:4]`, and the identities, the page and the mask can be read back.
pub proof fn law_descriptor_fields(
    client: PciDevice,
    domain: VtdIoDomain,
    iova: usize,
    mask: u8,
    entry: VtdInterruptEntry,
    cap: VtdCapability,
)
    requires
        domain.wf(),
        mask <= 0x3f,
    ensures
        ({
            let device = VtdQueuedInvalidationDescriptor::spec_context_device(client);
            let global = VtdQueuedInvalidationDescriptor::spec_iotlb_global(cap);
            let whole = VtdQueuedInvalidationDescriptor::spec_iotlb_domain(domain, cap);
            let page = VtdQueuedInvalidationDescriptor::spec_iotlb_page(domain, iova, mask, cap);
            let cache = VtdQueuedInvalidationDescriptor::spec_interrupt_entry_cache(entry);
            &&& device.low & 0x3f == 0x31
            &&& device.low >> 32 == client.spec_bdf().0
            &&& global.low & 0x3f == 0x12
            &&& whole.low & 0x3f == 0x22
            &&& (whole.low >> 16) & 0xffff == domain.spec_id()
            &&& page.low & 0x3f == 0x32
            &&& (page.low >> 16) & 0xffff == domain.spec_id()
            &&& page.high & 0x3f == mask
            &&& page.high & 0xffff_ffff_ffff_f000 == (iova as u64) & 0xffff_ffff_ffff_f000
            &&& cache.low & 0x3f == 0x14
            &&& cache.low >> 32 == entry.0
        }),
{
    lemma_descriptor_fields(
        client.spec_bdf().0,
        domain.spec_id(),
        iova as u64,
        mask,
        entry.0,
        bits::bit_set(cap.0, 55),
        bits::bit_set(cap.0, 54),
    );
}

spec fn drains(read: bool, write: bool) -> u64 {
    (if read {
        0x80u64
    } else {
        0
    }) | (if write {
        0x40u64
    } else {
        0
    })
}

proof fn lemma_descriptor_fields(
    source: u16,
    id: u32,
    iova: u64,
    mask: u8,
    entry: u16,
    read: bool,
    write: bool,
)
    by (bit_vector)
    requires
        id & 0x0000_ffff == id,
        mask <= 0x3f,
    ensures
        (0x31u64 | ((source as u64) << 32)) & 0x3f == 0x31,
        (0x31u64 | ((source as u64) << 32)) >> 32 == source,
        (0x12u64 | drains(read, write)) & 0x3f == 0x12,
        (0x22u64 | drains(read, write) | ((id as u64) << 16)) & 0x3f == 0x22,
        ((0x22u64 | drains(read, write) | ((id as u64) << 16)) >> 16) & 0xffff == id,
        (0x32u64 | drains(read, write) | ((id as u64) << 16)) & 0x3f == 0x32,
        ((0x32u64 | drains(read, write) | ((id as u64) << 16)) >> 16) & 0xffff == id,
        ((iova & 0xffff_ffff_ffff_f000) | (mask as u64)) & 0x3f == mask,
        ((iova & 0xffff_ffff_ffff_f000) | (mask as u64)) & 0xffff_ffff_ffff_f000 == iova
            & 0xffff_ffff_ffff_f000,
        (0x14u64 | ((entry as u64) << 32)) & 0x3f == 0x14,
        (0x14u64 | ((entry as u64) << 32)) >> 32 == entry,
{
}

/// What is wrong with a ring as an invalidation queue, if anything.
pub open spec fn queue_fault(backing: CommandQueueBacking) -> Option<Error> {
    if backing.spec_entry_bytes() != 16 {
        Some(Error::InvalidGranule)
    } else if backing.spec_entry_count() < 256 || !bits::is_pow2(
        backing.spec_entry_count() as int,
    ) {
        Some(Error::InvalidRange)
    } else if backing.spec_phys().start.0 % 0x1000 != 0 {
        Some(Error::InvalidAddress)
    } else if bits::spec_log2(backing.spec_entry_count() as int / 256) > 7 {
        Some(Error::InvalidRange)
    } else {
        None
    }
}

/// The queue address register value for a ring: its address, and in bits
/// `[2:0]` the logarithm of its number of 256-entry pages.
pub open spec fn queue_address(backing: CommandQueueBacking) -> u64 {
    ((backing.spec_phys().start.0 as u64) & 0xffff_ffff_ffff_f000) | (bits::spec_log2(
        backing.spec_entry_count() as int / 256,
    ) as u64)
}

pub fn queued_invalidation_table_address(backing: CommandQueueBacking) -> (r: Result<u64, Error>)
    ensures
        r == (match queue_fault(backing) {
            None => Ok(queue_address(backing)),
            Some(error) => Err(error),
        }),
{
    if backing.entry_bytes() != QI_ENTRY_BYTES {
        return Err(Error::InvalidGranule);
    }
    if backing.entry_count() < QI_MIN_ENTRIES || !bits::is_power_of_two(backing.entry_count()) {
        return Err(Error::InvalidRange);
    }
    proof {
        bits::lemma_page_is_pow2();
    }
    if !backing.phys().start.is_aligned(PageSize::Size4K.bytes()) {
        return Err(Error::InvalidAddress);
    }
    let encoded: u32 = bits::floor_log2(backing.entry_count() / QI_MIN_ENTRIES);
    if encoded > 7 {
        return Err(Error::InvalidRange);
    }
    Ok(((backing.phys().start.as_usize() as u64) & PAGE_ADDR_MASK) | (encoded as u64))
}

/// The register value of a valid queue holds its address, and its size field
/// gives back the number of entries.
pub proof fn law_queue_address_holds_address_and_size(backing: CommandQueueBacking)
    requires
        queue_fault(backing) is None,
    ensures
        queue_address(backing) & 0xffff_ffff_ffff_f000 == (backing.spec_phys().start.0 as u64)
            & 0xffff_ffff_ffff_f000,
        256 * vstd::arithmetic::power2::pow2((queue_address(backing) & 0x7) as nat)
            == backing.spec_entry_count(),
{
    let count = backing.spec_entry_count() as int;
    let pages = count / 256;
    let encoded = bits::spec_log2(pages);
    bits::lemma_log2_bounds(pages);
    let start = backing.spec_phys().start.0 as u64;
    let size = encoded as u64;
    assert(((start & 0xffff_ffff_ffff_f000) | size) & 0xffff_ffff_ffff_f000 == start
        & 0xffff_ffff_ffff_f000 && ((start & 0xffff_ffff_ffff_f000) | size) & 0x7 == size)
        by (bit_vector)
        requires
            size <= 7,
    ;
    lemma_pow2_over_256(count as u64);
    bits::lemma_log2_of_pow2(pages);
}

proof fn lemma_pow2_over_256(count: u64)
    by (bit_vector)
    requires
        count >= 256,
        count & ((count - 1) as u64) == 0,
    ensures
        count % 256 == 0,
        (count / 256) & ((count / 256 - 1) as u64) == 0,
{
}

/// Descriptors to submit, in order, and what they invalidate.
#[derive(Clone, Debug, PartialEq, Eq)]
pub struct VtdInvalidationPlan {
    pub descriptors: Vec<VtdQueuedInvalidationDescriptor>,
    pub scope: InvalidateScope,
}

/// Descriptors and scope of a plan.
pub struct PlanView {
    pub descriptors: Seq<VtdQueuedInvalidationDescriptor>,
    pub scope: InvalidateScope,
}

impl View for VtdInvalidationPlan {
    type V = PlanView;

    open spec fn view(&self) -> PlanView {
        PlanView { descriptors: self.descriptors@, scope: self.scope }
    }
}

impl PlanView {
    pub open spec fn one(
        descriptor: VtdQueuedInvalidationDescriptor,
        scope: InvalidateScope,
    ) -> Self {
        PlanView { descriptors: seq![descriptor], scope }
    }

    /// The whole domain.
    pub open spec fn whole_domain(domain: VtdIoDomain, cap: VtdCapability) -> Self {
        Self::one(
            VtdQueuedInvalidationDescriptor::spec_iotlb_domain(domain, cap),
            InvalidateScope::Domain,
        )
    }

    /// One leaf, or the whole domain where the unit cannot invalidate it alone.
    pub open spec fn leaf(
        domain: VtdIoDomain,
        iova: usize,
        granule: PageSize,
        cap: VtdCapability,
    ) -> Self {
        match VtdQueuedInvalidationDescriptor::spec_iotlb_leaf(domain, iova, granule, cap) {
            Ok(descriptor) => Self::one(descriptor, InvalidateScope::Leaf),
            Err(_) => Self::whole_domain(domain, cap),
        }
    }

    /// The largest address mask that the unit and its descriptors allow.
    pub open spec fn largest_mask(cap: VtdCapability) -> nat {
        let word = (usize::BITS - 1) as nat;
        let offered = if cap.spec_max_mask() < 0x3f {
            cap.spec_max_mask() as nat
        } else {
            0x3f
        };
        if offered < word {
            offered
        } else {
            word
        }
    }

    /// The pages of a range, one aligned block after the other. The whole
    /// domain stands for them where the unit cannot invalidate blocks of the
    /// page size, where the range does not start at one, or where it takes more
    /// than 32 blocks.
    pub open spec fn range(
        domain: VtdIoDomain,
        start: usize,
        page_size: PageSize,
        count_pages: usize,
        cap: VtdCapability,
    ) -> Result<Self, Error> {
        let granule = super::super::caps::granule_mask(page_size);
        if count_pages == 0 {
            Ok(PlanView { descriptors: Seq::empty(), scope: InvalidateScope::Leaf })
        } else if granule is None {
            Ok(Self::whole_domain(domain, cap))
        } else {
            let min_mask = granule->0 as nat;
            let max_mask = Self::largest_mask(cap);
            let span = vstd::arithmetic::power2::pow2(min_mask) as int;
            let start_page = start as int / 0x1000;
            if !bits::bit_set(cap.0, 39) || max_mask < min_mask || start_page % span != 0 {
                Ok(Self::whole_domain(domain, cap))
            } else if count_pages * span > usize::MAX {
                Err(Error::AddressOverflow)
            } else {
                let blocks = super::plan::range_blocks(
                    start_page,
                    count_pages * span,
                    min_mask,
                    max_mask,
                );
                if blocks.len() > 32 {
                    Ok(Self::whole_domain(domain, cap))
                } else {
                    Ok(
                        PlanView {
                            descriptors: blocks.map_values(
                                |block: super::plan::VtdIotlbRangeBlock|
                                    VtdQueuedInvalidationDescriptor::spec_iotlb_page(
                                        domain,
                                        block.page << 12usize,
                                        block.address_mask,
                                        cap,
                                    ),
                            ),
                            scope: InvalidateScope::Leaf,
                        },
                    )
                }
            }
        }
    }
}

fn single(descriptor: VtdQueuedInvalidationDescriptor, scope: InvalidateScope) -> (r:
    VtdInvalidationPlan)
    ensures
        r@ == PlanView::one(descriptor, scope),
{
    let mut descriptors: Vec<VtdQueuedInvalidationDescriptor> = Vec::new();
    descriptors.push(descriptor);
    assert(descriptors@ =~= seq![descriptor]);
    VtdInvalidationPlan { descriptors, scope }
}

/// The descriptor that invalidates everything.
pub fn invalidate_iotlb_global(cap: VtdCapability) -> (r: VtdInvalidationPlan)
    ensures
        r@ == PlanView::one(
            VtdQueuedInvalidationDescriptor::spec_iotlb_global(cap),
            InvalidateScope::Global,
        ),
{
    single(VtdQueuedInvalidationDescriptor::iotlb_global(cap), InvalidateScope::Global)
}

/// The descriptor that invalidates one domain.
pub fn invalidate_iotlb_domain(domain: VtdIoDomain, cap: VtdCapability) -> (r: VtdInvalidationPlan)
    ensures
        r@ == PlanView::whole_domain(domain, cap),
{
    single(VtdQueuedInvalidationDescriptor::iotlb_domain(domain, cap), InvalidateScope::Domain)
}

/// The descriptor that invalidates one leaf.
pub fn invalidate_iotlb_page(
    domain: VtdIoDomain,
    iova: IoviAddr<u64>,
    granule: PageSize,
    cap: VtdCapability,
) -> (r: VtdInvalidationPlan)
    ensures
        r@ == PlanView::leaf(domain, iova@, granule, cap),
{
    match VtdQueuedInvalidationDescriptor::iotlb_page(domain, iova, granule, cap) {
        Ok(descriptor) => single(descriptor, InvalidateScope::Leaf),
        Err(_) => invalidate_iotlb_domain(domain, cap),
    }
}

/// The descriptors that invalidate a range of leaves.
pub fn invalidate_iotlb_range(
    domain: VtdIoDomain,
    start: IoviAddr<u64>,
    page_size: PageSize,
    count_pages: usize,
    cap: VtdCapability,
) -> (r: Result<VtdInvalidationPlan, Error>)
    ensures
        match r {
            Ok(plan) => PlanView::range(domain, start@, page_size, count_pages, cap) == Ok::<
                PlanView,
                Error,
            >(plan@),
            Err(error) => PlanView::range(domain, start@, page_size, count_pages, cap) == Err::<
                PlanView,
                Error,
            >(error),
        },
{
    if count_pages == 0 {
        let plan = VtdInvalidationPlan { descriptors: Vec::new(), scope: InvalidateScope::Leaf };
        assert(plan.descriptors@ =~= Seq::empty());
        return Ok(plan);
    }
    let min_mask: u8 = match granule_address_mask(page_size) {
        Some(mask) => mask,
        None => return Ok(invalidate_iotlb_domain(domain, cap)),
    };
    let offered: u8 = if cap.max_address_mask_value() < IVA_AM_MASK {
        cap.max_address_mask_value()
    } else {
        IVA_AM_MASK
    };
    let max_mask: u8 = if (offered as u32) < usize::BITS - 1 {
        offered
    } else {
        (usize::BITS - 1) as u8
    };
    assert(max_mask == PlanView::largest_mask(cap));
    proof {
        vstd::bits::lemma_usize_pow2_no_overflow(min_mask as nat);
        vstd::bits::lemma_usize_shl_is_mul(1, min_mask as usize);
        vstd::arithmetic::power2::lemma_pow2_pos(min_mask as nat);
    }
    let page_span: usize = 1usize << min_mask;
    let start_page: usize = start.as_usize() / 0x1000;
    if !cap.page_selective_invalidation() || max_mask < min_mask || start_page % page_span != 0 {
        return Ok(invalidate_iotlb_domain(domain, cap));
    }
    let total_pages: usize = match count_pages.checked_mul(page_span) {
        Some(total) => total,
        None => return Err(Error::AddressOverflow),
    };
    proof {
        vstd::arithmetic::div_mod::lemma_mod_multiples_basic(count_pages as int, page_span as int);
    }
    let mut cursor = match VtdIotlbRangePlan::new(start_page, total_pages, min_mask, max_mask) {
        Ok(plan) => plan,
        Err(error) => return Err(error),
    };
    let ghost blocks = cursor.blocks();
    if cursor.descriptor_count() > IOTLB_RANGE_DOMAIN_INVALIDATION_THRESHOLD {
        return Ok(invalidate_iotlb_domain(domain, cap));
    }
    let mut descriptors: Vec<VtdQueuedInvalidationDescriptor> = Vec::new();
    let ghost describe = |block: super::plan::VtdIotlbRangeBlock|
        VtdQueuedInvalidationDescriptor::spec_iotlb_page(
            domain,
            block.page << 12usize,
            block.address_mask,
            cap,
        );
    assert(blocks.map_values(describe) =~= descriptors@ + cursor.blocks().map_values(describe));
    loop
        invariant
            cursor.wf(),
            cursor.spec_max_mask() == max_mask,
            max_mask <= cap.spec_max_mask(),
            max_mask <= 0x3f,
            bits::bit_set(cap.0, 39),
            describe == |block: super::plan::VtdIotlbRangeBlock|
                VtdQueuedInvalidationDescriptor::spec_iotlb_page(
                    domain,
                    block.page << 12usize,
                    block.address_mask,
                    cap,
                ),
            blocks.map_values(describe) == descriptors@ + cursor.blocks().map_values(describe),
        ensures
            descriptors@ == blocks.map_values(describe),
        decreases cursor.spec_remaining(),
    {
        let ghost before = cursor.blocks();
        let ghost done = descriptors@;
        match cursor.next_block() {
            None => {
                assert(descriptors@ + before.map_values(describe) =~= descriptors@);
                break ;
            },
            Some(block) => {
                let iova = IoviAddr::<u64>::from_usize(block.page << 12usize);
                match VtdQueuedInvalidationDescriptor::iotlb_page_with_address_mask(
                    domain,
                    iova,
                    block.address_mask,
                    cap,
                ) {
                    Ok(descriptor) => descriptors.push(descriptor),
                    Err(error) => return Err(error),
                }
                assert(before.map_values(describe)[0] == describe(block));
                assert(done + before.map_values(describe) =~= descriptors@
                    + cursor.blocks().map_values(describe));
            },
        }
    }
    Ok(VtdInvalidationPlan { descriptors, scope: InvalidateScope::Leaf })
}

/// The address mask that covers one leaf of `size`.
fn granule_address_mask(size: PageSize) -> (r: Option<u8>)
    ensures
        r == super::super::caps::granule_mask(size),
        r matches Some(mask) ==> mask <= 18,
{
    match size {
        PageSize::Size4K => Some(0),
        PageSize::Size2M => Some(9),
        PageSize::Size1G => Some(18),
        _ => None,
    }
}

impl VtdQueuedInvalidationDescriptor {
    /// Whether a page-selective descriptor invalidates the page with the given
    /// number: its high bits agree with the descriptor's, whose low bits are
    /// zero.
    pub open spec fn invalidates(self, page: int) -> bool {
        let base = self.high >> 12;
        base <= page < base + vstd::arithmetic::power2::pow2((self.high & 0x3f) as nat)
    }
}

/// The descriptors of a range that are submitted leaf by leaf invalidate
/// exactly the pages of the range, for a range that ends inside the address
/// space.
pub proof fn law_range_plan_invalidates_exactly_the_range(
    domain: VtdIoDomain,
    start: usize,
    page_size: PageSize,
    count_pages: usize,
    cap: VtdCapability,
    page: int,
)
    requires
        count_pages > 0,
        PlanView::range(domain, start, page_size, count_pages, cap) matches Ok(plan) && plan.scope
            == InvalidateScope::Leaf,
        start + count_pages * page_size.spec_bytes() <= usize::MAX,
    ensures
        ({
            let plan = PlanView::range(domain, start, page_size, count_pages, cap)->Ok_0;
            let first = start as int / 0x1000;
            (exists|i: int|
                0 <= i < plan.descriptors.len() && #[trigger] plan.descriptors[i].invalidates(page))
                <==> first <= page < first + count_pages * page_size.spec_bytes() / 0x1000
        }),
{
    let plan = PlanView::range(domain, start, page_size, count_pages, cap)->Ok_0;
    let first = start as int / 0x1000;
    let min_mask = super::super::caps::granule_mask(page_size)->0 as nat;
    let max_mask = PlanView::largest_mask(cap);
    let span = vstd::arithmetic::power2::pow2(min_mask) as int;
    let total = count_pages * span;
    vstd::arithmetic::power2::lemma2_to64();
    assert(page_size.spec_bytes() == 0x1000 * span);
    assert(count_pages * page_size.spec_bytes() == 0x1000 * total) by (nonlinear_arith)
        requires
            page_size.spec_bytes() == 0x1000 * span,
            total == count_pages * span,
    ;
    assert(total >= 0) by (nonlinear_arith)
        requires
            total == count_pages * span,
            span >= 0,
    ;
    assert(first + total <= usize::MAX as int / 0x1000);
    vstd::arithmetic::div_mod::lemma_mod_multiples_basic(count_pages as int, span);
    let blocks = super::plan::range_blocks(first, total, min_mask, max_mask);
    assert(plan.descriptors.len() == blocks.len());
    super::plan::law_blocks_cover_exactly_the_range(first, total, min_mask, max_mask, page);
    assert forall|i: int| 0 <= i < blocks.len() implies #[trigger] plan.descriptors[i].invalidates(
        page,
    ) == blocks[i].has(page) by {
        super::plan::law_blocks_are_aligned_and_adjacent(first, total, min_mask, max_mask, i);
        let block = blocks[i];
        super::plan::law_blocks_cover_exactly_the_range(
            first,
            total,
            min_mask,
            max_mask,
            block.page as int,
        );
        vstd::arithmetic::power2::lemma_pow2_pos(block.address_mask as nat);
        assert(block.has(block.page as int));
        assert(super::plan::covers(blocks, block.page as int));
        vstd::bits::lemma_usize_shl_is_mul(block.page, 12);
        lemma_page_words((block.page << 12usize) as u64, block.address_mask);
    }
    if exists|i: int|
        0 <= i < plan.descriptors.len() && #[trigger] plan.descriptors[i].invalidates(page) {
        let i = choose|i: int|
            0 <= i < plan.descriptors.len() && #[trigger] plan.descriptors[i].invalidates(page);
        assert(blocks[i].has(page));
    }
    if super::plan::covers(blocks, page) {
        let i = choose|i: int| 0 <= i < blocks.len() && #[trigger] blocks[i].has(page);
        assert(plan.descriptors[i].invalidates(page));
    }
}

proof fn lemma_page_words(iova: u64, mask: u8)
    by (bit_vector)
    requires
        iova % 0x1000 == 0,
        mask <= 0x3f,
    ensures
        ((iova & 0xffff_ffff_ffff_f000) | (mask as u64)) >> 12 == iova / 0x1000,
        ((iova & 0xffff_ffff_ffff_f000) | (mask as u64)) & 0x3f == mask,
{
}

/// Whether a domain invalidation is better than one for each pending leaf.
pub fn prefer_full_flush(pending_count: usize) -> (r: bool)
    ensures
        r == (pending_count > 32),
{
    pending_count > IOTLB_RANGE_DOMAIN_INVALIDATION_THRESHOLD
}

/// The plan that carries out a request against the unit that translates by
/// `domain`, if it offers the request.
pub open spec fn request_plan(
    domain: VtdIoDomain,
    cap: VtdCapability,
    request: Invalidate<PciDevice, IoviAddr<u64>>,
) -> Result<PlanView, Error> {
    match request {
        Invalidate::Global => Ok(
            PlanView::one(
                VtdQueuedInvalidationDescriptor::spec_iotlb_global(cap),
                InvalidateScope::Global,
            ),
        ),
        Invalidate::AddressSpace => Ok(PlanView::whole_domain(domain, cap)),
        Invalidate::Leaf { iova, granule } => Ok(PlanView::leaf(domain, iova@, granule, cap)),
        Invalidate::Device { .. } => Err(Error::FeatureUnavailable),
        Invalidate::DeviceLeaf { .. } => Err(Error::FeatureUnavailable),
    }
}

/// The descriptors that carry out a request.
pub fn invalidate(
    domain: VtdIoDomain,
    cap: VtdCapability,
    request: Invalidate<PciDevice, IoviAddr<u64>>,
) -> (r: Result<VtdInvalidationPlan, Error>)
    ensures
        match r {
            Ok(plan) => request_plan(domain, cap, request) == Ok::<PlanView, Error>(plan@),
            Err(error) => request_plan(domain, cap, request) == Err::<PlanView, Error>(error),
        },
{
    match request {
        Invalidate::Global => Ok(invalidate_iotlb_global(cap)),
        Invalidate::AddressSpace => Ok(invalidate_iotlb_domain(domain, cap)),
        Invalidate::Leaf { iova, granule } => Ok(
            invalidate_iotlb_page(domain, iova, granule, cap),
        ),
        Invalidate::Device { .. } => Err(Error::FeatureUnavailable),
        Invalidate::DeviceLeaf { .. } => Err(Error::FeatureUnavailable),
    }
}

impl VtdInvalidationPlan {
    /// What the request amounted to, once the descriptors went through the
    /// queue.
    pub fn outcome(&self) -> (r: InvalidateOutcome)
        ensures
            r == (InvalidateOutcome { scope: self.scope, queued: true }),
    {
        InvalidateOutcome::new(self.scope, true)
    }
}

} // verus!
