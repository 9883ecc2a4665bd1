//! What the operations of a remapping unit are for, stated over the words that
//! hardware reads: which requester, which domain and which pages a written
//! entry or a submitted descriptor speaks of.

use vstd::arithmetic::power2;
use vstd::prelude::*;

use super::super::caps::{VtdCapability, VtdExtendedCapability};
use super::super::info::{VtdDomain, VtdIoDomain};
use super::super::paging::VtdSecondLevelAddressWidth;
use super::invalidation::{PlanView, VtdQueuedInvalidationDescriptor};
use super::remap::{VtdInterruptEntry, VtdInterruptRemapEntry, VtdInterruptRemapTableBacking};
use super::tables::{VtdContextEntry, VtdContextTableBacking, VtdRootEntry, VtdRootTableBacking};
use super::unit::UnitView;
use crate::addr::{IoviAddr, PhysAddr};
use crate::caps::{Binding, BindingSelector, BindingTarget};
use crate::ctrl::{Invalidate, InvalidateScope};
use crate::error::Error;
use crate::firm::pcie::PciDevice;
use crate::memory::{PageSize, PageTableEntry};

verus! {

/// Hardware drops the translation of a page for a page-selective descriptor:
/// the page number agrees with the one in the high word, but for as many low
/// bits as bits `[5:0]` of the high word say.
pub open spec fn drops_page(descriptor: VtdQueuedInvalidationDescriptor, page: int) -> bool {
    let span = power2::pow2((descriptor.high & 0x3f) as nat) as int;
    page / span == (descriptor.high >> 12) as int / span
}

/// The descriptor asks for the draining that the unit offers: of writes by bit
/// 6 and of reads by bit 7, which bits 54 and 55 of its capabilities stand for.
pub open spec fn drains_as_offered(
    descriptor: VtdQueuedInvalidationDescriptor,
    cap: VtdCapability,
) -> bool {
    &&& (descriptor.low & 0x40 != 0) == ((cap.0 >> 54) & 1 == 1)
    &&& (descriptor.low & 0x80 != 0) == ((cap.0 >> 55) & 1 == 1)
}

/// The unit can drop the leaves of a size one by one: it has page-selective
/// invalidation (bit 39), and bits `[53:48]` allow as many ignored page bits as
/// the leaf has.
pub open spec fn drops_leaves_of(cap: VtdCapability, granule: PageSize) -> bool {
    &&& (cap.0 >> 39) & 1 == 1
    &&& match granule {
        PageSize::Size4K => true,
        PageSize::Size2M => (cap.0 >> 48) & 0x3f >= 9,
        PageSize::Size1G => (cap.0 >> 48) & 0x3f >= 18,
        _ => false,
    }
}

proof fn lemma_descriptor_words(id: u32, read: bool, write: bool, iova: u64, mask: u8)
    by (bit_vector)
    requires
        id & 0x0000_ffff == id,
        mask <= 0x3f,
    ensures
        ({
            let drains = (if read { 0x80u64 } else { 0u64 }) | (if write { 0x40u64 } else { 0u64 });
            let global = 0x12u64 | drains;
            let whole = 0x22u64 | drains | ((id as u64) << 16);
            let page = 0x32u64 | drains | ((id as u64) << 16);
            let high = (iova & 0xffff_ffff_ffff_f000) | (mask as u64);
            &&& global & 0x3f == 0x12
            &&& whole & 0x3f == 0x22
            &&& page & 0x3f == 0x32
            &&& (global & 0x40 != 0) == write
            &&& (global & 0x80 != 0) == read
            &&& (whole & 0x40 != 0) == write
            &&& (whole & 0x80 != 0) == read
            &&& (page & 0x40 != 0) == write
            &&& (page & 0x80 != 0) == read
            &&& global >> 8 == 0
            &&& whole >> 16 == id
            &&& page >> 16 == id
            &&& high >> 12 == iova / 0x1000
            &&& high & 0x3f == mask
        }),
{
}

proof fn lemma_mask_field(word: u64)
    ensures
        crate::bits::bit_field(word, 53, 48) == (word >> 48) & 0x3f,
{
    assert(((word >> 48) & ((1u64 << 6) - 1) as u64) == (word >> 48) & 0x3f) by (bit_vector);
}

/// The plan of a leaf request drops the leaf: it has one descriptor, for the
/// given domain, which either drops the whole domain or exactly the 4 KiB pages
/// of the leaf that holds the address. It is the leaf alone wherever the unit
/// can drop leaves of that size.
pub proof fn law_leaf_request_drops_its_leaf(
    domain: VtdIoDomain,
    cap: VtdCapability,
    iova: IoviAddr<u64>,
    granule: PageSize,
    page: int,
)
    requires
        domain.wf(),
        page >= 0,
    ensures
        super::invalidation::request_plan(
            domain,
            cap,
            Invalidate::Leaf { iova, granule },
        ) matches Ok(plan) && {
            let descriptor = plan.descriptors[0];
            let pages = granule.spec_bytes() as int / 0x1000;
            &&& plan.descriptors.len() == 1
            &&& descriptor.low >> 16 == domain.spec_id()
            &&& drains_as_offered(descriptor, cap)
            &&& if drops_leaves_of(cap, granule) {
                &&& plan.scope == InvalidateScope::Leaf
                &&& descriptor.low & 0x3f == 0x32
                &&& drops_page(descriptor, page) <==> page / pages == (iova@ as int / 0x1000)
                    / pages
            } else {
                &&& plan.scope == InvalidateScope::Domain
                &&& descriptor.low & 0x3f == 0x22
            }
        },
{
    lemma_mask_field(cap.0);
    power2::lemma2_to64();
    let mask = match granule {
        PageSize::Size4K => 0u8,
        PageSize::Size2M => 9u8,
        _ => 18u8,
    };
    lemma_descriptor_words(
        domain.spec_id(),
        crate::bits::bit_set(cap.0, 55),
        crate::bits::bit_set(cap.0, 54),
        iova@ as u64,
        mask,
    );
}

/// The plan of every request that is accepted speaks of the given domain: a
/// global one drops everything, one for the address space drops the domain, and
/// requests that name a device are refused.
pub proof fn law_requests_reach_their_scope(
    domain: VtdIoDomain,
    cap: VtdCapability,
    request: Invalidate<PciDevice, IoviAddr<u64>>,
)
    requires
        domain.wf(),
    ensures
        match super::invalidation::request_plan(domain, cap, request) {
            Ok(plan) => {
                let descriptor = plan.descriptors[0];
                &&& !(request is Device) && !(request is DeviceLeaf)
                &&& plan.descriptors.len() == 1
                &&& drains_as_offered(descriptor, cap)
                &&& request is Global ==> plan.scope == InvalidateScope::Global && descriptor.low
                    & 0x3f == 0x12 && descriptor.high == 0
                &&& request is AddressSpace ==> plan.scope == InvalidateScope::Domain
                    && descriptor.low & 0x3f == 0x22 && descriptor.high == 0
                &&& !(request is Global) ==> descriptor.low >> 16 == domain.spec_id()
            },
            Err(error) => (request is Device || request is DeviceLeaf) && error
                == Error::FeatureUnavailable,
        },
{
    lemma_descriptor_words(
        domain.spec_id(),
        crate::bits::bit_set(cap.0, 55),
        crate::bits::bit_set(cap.0, 54),
        0,
        0,
    );
    if let Invalidate::Leaf { iova, granule } = request {
        law_leaf_request_drops_its_leaf(domain, cap, iova, granule, 0);
    }
}

/// The blocks of a range keep to the bounds of the masks, and each holds at
/// least one leaf.
proof fn lemma_blocks_keep_bounds(page: int, pages: int, min_mask: nat, max_mask: nat)
    requires
        0 <= pages,
        min_mask <= max_mask <= 0x3f,
        min_mask < usize::BITS,
        pages % (power2::pow2(min_mask) as int) == 0,
    ensures
        ({
            let blocks = super::plan::range_blocks(page, pages, min_mask, max_mask);
            &&& forall|i: int|
                0 <= i < blocks.len() ==> (#[trigger] blocks[i]).address_mask <= max_mask
            &&& blocks.len() * power2::pow2(min_mask) <= pages
            &&& pages > 0 ==> blocks.len() > 0
        }),
    decreases pages,
{
    let blocks = super::plan::range_blocks(page, pages, min_mask, max_mask);
    let unit = power2::pow2(min_mask) as int;
    if pages > 0 {
        let mask = super::plan::block_mask(page, pages, min_mask, max_mask);
        super::plan::lemma_mask_fits(page, pages, min_mask, max_mask);
        super::plan::lemma_block_step(page, pages, min_mask, mask);
        power2::lemma_pow2_pos(mask);
        let size = power2::pow2(mask) as int;
        if min_mask < mask {
            power2::lemma_pow2_strictly_increases(min_mask, mask);
        }
        let behind = super::plan::page_behind(page, size as nat);
        lemma_blocks_keep_bounds(behind, pages - size, min_mask, max_mask);
        let rest = super::plan::range_blocks(behind, pages - size, min_mask, max_mask);
        assert(blocks.len() == rest.len() + 1);
        assert forall|i: int| 0 <= i < blocks.len() implies (#[trigger] blocks[i]).address_mask
            <= max_mask by {
            if i > 0 {
                assert(blocks[i] == rest[i - 1]);
            }
        }
        assert(blocks.len() * unit == rest.len() * unit + unit) by (nonlinear_arith)
            requires
                blocks.len() == rest.len() + 1,
        ;
    } else {
        assert(blocks.len() * unit == 0) by (nonlinear_arith)
            requires
                blocks.len() == 0,
        ;
    }
}

/// The plan of a range speaks of the given domain only. It drops the leaves one
/// by one where the unit can do that and the range starts at a leaf, with never
/// more than 32 descriptors, and always for up to 32 leaves; otherwise it has
/// one descriptor, for the whole domain.
#[verifier::rlimit(40)]
pub proof fn law_range_plan_speaks_of_its_domain(
    domain: VtdIoDomain,
    start: usize,
    page_size: PageSize,
    count_pages: usize,
    cap: VtdCapability,
)
    requires
        domain.wf(),
    ensures
        ({
            let pages = page_size.spec_bytes() as int / 0x1000;
            let apart = drops_leaves_of(cap, page_size) && (start as int / 0x1000) % pages == 0;
            match PlanView::range(domain, start, page_size, count_pages, cap) {
                Ok(plan) => {
                    &&& forall|i: int|
                        0 <= i < plan.descriptors.len() ==> {
                            &&& (#[trigger] plan.descriptors[i]).low >> 16 == domain.spec_id()
                            &&& drains_as_offered(plan.descriptors[i], cap)
                            &&& plan.descriptors[i].low & 0x3f == (if plan.scope
                                == InvalidateScope::Domain {
                                0x22u64
                            } else {
                                0x32u64
                            })
                            &&& plan.descriptors[i].high & 0x3f <= (cap.0 >> 48) & 0x3f
                        }
                    &&& plan.scope == InvalidateScope::Domain || plan.scope == InvalidateScope::Leaf
                    &&& plan.scope == InvalidateScope::Domain ==> plan.descriptors.len() == 1
                    &&& plan.descriptors.len() <= 32
                    &&& plan.descriptors.len() == 0 <==> count_pages == 0
                    &&& count_pages > 0 && !apart ==> plan.scope == InvalidateScope::Domain
                    &&& count_pages <= 32 && apart ==> plan.scope == InvalidateScope::Leaf
                },
                Err(error) => {
                    &&& error == Error::AddressOverflow
                    &&& apart
                    &&& count_pages * pages > usize::MAX
                },
            }
        }),
{
    lemma_mask_field(cap.0);
    power2::lemma2_to64();
    let word = cap.0;
    assert((word >> 48) & 0x3f <= 0x3f && 0u64 & 0x3f == 0) by (bit_vector);
    let granule = super::super::caps::granule_mask(page_size);
    let max_mask = PlanView::largest_mask(cap);
    assert forall|iova: usize, mask: u8| mask <= 0x3f implies {
        let descriptor = #[trigger] VtdQueuedInvalidationDescriptor::spec_iotlb_page(
            domain,
            iova,
            mask,
            cap,
        );
        &&& descriptor.low & 0x3f == 0x32
        &&& descriptor.low >> 16 == domain.spec_id()
        &&& drains_as_offered(descriptor, cap)
        &&& descriptor.high & 0x3f == mask
    } by {
        lemma_descriptor_words(
            domain.spec_id(),
            crate::bits::bit_set(cap.0, 55),
            crate::bits::bit_set(cap.0, 54),
            iova as u64,
            mask,
        );
    }
    lemma_descriptor_words(
        domain.spec_id(),
        crate::bits::bit_set(cap.0, 55),
        crate::bits::bit_set(cap.0, 54),
        0,
        0,
    );
    if count_pages > 0 && granule is Some {
        let min_mask = granule->0 as nat;
        let span = power2::pow2(min_mask) as int;
        let total = count_pages * span;
        vstd::arithmetic::div_mod::lemma_mod_multiples_basic(count_pages as int, span);
        assert(total > 0) by (nonlinear_arith)
            requires
                total == count_pages * span,
                count_pages > 0,
                span > 0,
        ;
        if max_mask >= min_mask {
            let first = start as int / 0x1000;
            lemma_blocks_keep_bounds(first, total, min_mask, max_mask);
            let blocks = super::plan::range_blocks(first, total, min_mask, max_mask);
            assert(blocks.len() <= count_pages) by (nonlinear_arith)
                requires
                    blocks.len() * span <= count_pages * span,
                    span > 0,
            ;
        }
    }
}

proof fn lemma_context_words(agaw: u64, id: u32, root: u64, source: u16)
    by (bit_vector)
    requires
        1 <= agaw <= 3,
        id == 0 || id & 0x0000_ffff == id,
    ensures
        ({
            let low = (root & 0x000f_ffff_ffff_f000) | 1;
            let high = agaw | ((id as u64) << 8);
            let context = 0x31u64 | ((source as u64) << 32);
            &&& low & 1 == 1
            &&& (low >> 2) & 7 == 0
            &&& (root % 0x1000 == 0 && root < 0x10_0000_0000_0000 ==> low == root + 1)
            &&& high & 0x7 == agaw
            &&& high >> 8 == id
            &&& context & 0x3f == 0x31
            &&& context >> 32 == source
            &&& 0u64 & 1 == 0
            &&& 9u64 & 1 == 1
            &&& (9u64 >> 2) & 7 == 2
        }),
{
}

/// The words of a context entry do to a requester what its target says: an
/// aborted one has no present entry, one that passes through has a present entry
/// of translation type 2, and one of a domain has a present entry of type 0 with
/// the domain's table, depth and identity.
pub open spec fn entry_does(low: u64, high: u64, target: BindingTarget<VtdDomain>) -> bool {
    match target {
        BindingTarget::Abort => low & 1 == 0,
        BindingTarget::PassThrough => low & 1 == 1 && (low >> 2) & 7 == 2,
        BindingTarget::Domain(domain) => {
            &&& low & 1 == 1
            &&& (low >> 2) & 7 == 0
            &&& domain.root.0 < 0x10_0000_0000_0000 ==> low == domain.root.0 + 1
            &&& high & 0x7 == (match domain.width {
                VtdSecondLevelAddressWidth::Bits39 => 1u64,
                VtdSecondLevelAddressWidth::Bits48 => 2,
                VtdSecondLevelAddressWidth::Bits57 => 3,
            })
            &&& high >> 8 == domain.id.spec_id()
        },
    }
}

/// A binding becomes an entry that does what its target says. It is refused
/// where it names more than a requester, where it asks a unit to pass requests
/// through that cannot (bit 6 of its extended capabilities), and where the
/// domain's table does not start at a page; and only there.
pub proof fn law_entry_does_what_its_binding_says(
    binding: Binding<PciDevice, VtdDomain>,
    ecap: VtdExtendedCapability,
)
    requires
        binding.target matches BindingTarget::Domain(domain) ==> domain.id.wf(),
    ensures
        match VtdContextEntry::spec_from_binding(binding, ecap) {
            Ok(entry) => {
                &&& binding.selector == BindingSelector::Default
                &&& entry_does(entry.low, entry.high, binding.target)
                &&& entry.low & 1 == 1 && (entry.low >> 2) & 7 == 2 ==> binding.target
                    is PassThrough && (ecap.0 >> 6) & 1 == 1
                &&& binding.target matches BindingTarget::Domain(domain) ==> domain.root.0 % 0x1000
                    == 0
            },
            Err(error) => {
                ||| binding.selector != BindingSelector::Default && error
                    == Error::FeatureUnavailable
                ||| binding.target is PassThrough && (ecap.0 >> 6) & 1 == 0 && error
                    == Error::FeatureUnavailable
                ||| binding.target matches BindingTarget::Domain(domain) && domain.root.0 % 0x1000
                    != 0 && error == Error::InvalidAddress
            },
        },
{
    let word = ecap.0;
    assert((word >> 6) & 1 == 0 || (word >> 6) & 1 == 1) by (bit_vector);
    lemma_context_words(1, 0, 0, 0);
    if let BindingTarget::Domain(domain) = binding.target {
        lemma_context_words(
            domain.width.spec_agaw(),
            domain.id.spec_id(),
            domain.root.0 as u64,
            0,
        );
    }
}

/// The context entry of a requester, in the table of its bus: eight functions
/// for each of 32 devices, 16 bytes each.
pub open spec fn entry_address(table: VtdContextTableBacking, client: PciDevice) -> int {
    table.spec_backing().spec_virt().start.0 + (client.0 % 256) * 16
}

/// The number of a requester holds its segment above its bus, above its entry.
proof fn lemma_client_parts(client: PciDevice)
    ensures
        client.spec_segment() == client.0 / 0x1_0000,
        client.spec_bdf().spec_bus() == client.0 / 256 % 256,
        VtdContextTableBacking::spec_client_index(client) == client.0 % 256,
{
    lemma_identity_parts(client.0 as int);
}

#[verifier::spinoff_prover]
proof fn lemma_identity_parts(n: int)
    requires
        0 <= n,
    ensures
        ((n % 0x1_0000) / 8 % 32) * 8 + (n % 0x1_0000) % 8 == n % 256,
        (n % 0x1_0000) / 256 == n / 256 % 256,
{
    let (q, b) = (n / 0x1_0000, n % 0x1_0000);
    let (bus, r) = (b / 256, b % 256);
    let (d, f) = (r / 8, r % 8);
    assert(n == 0x1_0000 * q + 256 * bus + 8 * d + f);
    assert(b / 8 == 32 * bus + d && b % 8 == f);
    assert((32 * bus + d) % 32 == d);
    assert(n / 256 == 256 * q + bus && n % 256 == r);
    assert((256 * q + bus) % 256 == bus);
}

/// The table of a unit that a requester is looked up in: the one of its bus.
pub open spec fn bus_table<Entry: PageTableEntry>(
    unit: UnitView<Entry>,
    client: PciDevice,
) -> Option<VtdContextTableBacking> {
    unit.context_tables[(client.0 / 256 % 256) as int]
}

/// The requester stands in the unit's segment, the unit has a table for its bus,
/// and that table has an entry for it.
pub open spec fn can_route<Entry: PageTableEntry>(
    unit: UnitView<Entry>,
    client: PciDevice,
) -> bool {
    &&& unit.info.base.segment matches Some(segment) ==> segment == client.0 / 0x1_0000
    &&& bus_table(unit, client) matches Some(table) && client.0 % 256
        < table.spec_backing().spec_entry_count() && entry_address(table, client) <= usize::MAX
}

/// What is invalidated behind the write of a context entry: the unit's copy of
/// the requester's entry, and the translations of the domain.
pub open spec fn forgets(
    context: VtdQueuedInvalidationDescriptor,
    iotlb: VtdQueuedInvalidationDescriptor,
    client: PciDevice,
    domain: VtdDomain,
    cap: VtdCapability,
) -> bool {
    &&& context.low & 0x3f == 0x31
    &&& context.low >> 32 == client.0 % 0x1_0000
    &&& context.high == 0
    &&& iotlb.low & 0x3f == 0x22
    &&& iotlb.low >> 16 == domain.id.spec_id()
    &&& iotlb.high == 0
    &&& drains_as_offered(iotlb, cap)
}

proof fn lemma_forgets(client: PciDevice, domain: VtdDomain, cap: VtdCapability)
    requires
        domain.id.wf(),
    ensures
        forgets(
            VtdQueuedInvalidationDescriptor::spec_context_device(client),
            VtdQueuedInvalidationDescriptor::spec_iotlb_domain(domain.id, cap),
            client,
            domain,
            cap,
        ),
{
    lemma_context_words(1, 0, 0, client.spec_bdf().0);
    lemma_descriptor_words(
        domain.id.spec_id(),
        crate::bits::bit_set(cap.0, 55),
        crate::bits::bit_set(cap.0, 54),
        0,
        0,
    );
}

/// A binding that a unit accepts writes the requester's own entry, in the table
/// of its bus, with words that do what the target says, and forgets what the
/// unit holds of the requester and of the active domain. It is accepted exactly
/// where it names a whole requester that the unit can route and a target that
/// it can give: nothing, a pass-through that it has, or the active domain.
#[verifier::rlimit(40)]
pub proof fn law_binding_routes_its_requester<Entry>(
    unit: UnitView<Entry>,
    active: VtdDomain,
    binding: Binding<PciDevice, VtdDomain>,
) where Entry: PageTableEntry
    requires
        active.id.wf(),
    ensures
        unit.binding_update(active, binding) is Ok <==> {
            &&& binding.selector == BindingSelector::Default
            &&& can_route(unit, binding.client)
            &&& match binding.target {
                BindingTarget::Abort => true,
                BindingTarget::PassThrough => (unit.info.ecap.0 >> 6) & 1 == 1,
                BindingTarget::Domain(domain) => domain == active && domain.root.0 % 0x1000 == 0,
            }
        },
        unit.binding_update(active, binding) matches Ok(update) ==> {
            &&& bus_table(unit, binding.client) matches Some(table) && update.write.vaddr.0
                == entry_address(table, binding.client)
            &&& entry_does(update.write.low, update.write.high, binding.target)
            &&& forgets(update.context, update.iotlb, binding.client, active, unit.info.cap)
        },
{
    let client = binding.client;
    lemma_client_parts(client);
    if let BindingTarget::Domain(domain) = binding.target {
        if domain == active {
            law_entry_does_what_its_binding_says(binding, unit.info.ecap);
        }
    } else {
        law_entry_does_what_its_binding_says(binding, unit.info.ecap);
    }
    lemma_forgets(client, active, unit.info.cap);
}

/// Unbinding a requester that a unit can route leaves it without a present
/// entry, and forgets what the unit holds of the requester and of the domain;
/// any other requester is refused.
#[verifier::rlimit(40)]
pub proof fn law_unbinding_aborts_its_requester<Entry>(
    unit: UnitView<Entry>,
    domain: VtdDomain,
    client: PciDevice,
    selector: BindingSelector,
) where Entry: PageTableEntry
    requires
        domain.id.wf(),
    ensures
        unit.unbinding_update(domain, client, selector) is Ok <==> selector
            == BindingSelector::Default && can_route(unit, client),
        unit.unbinding_update(domain, client, selector) matches Ok(update) ==> {
            &&& bus_table(unit, client) matches Some(table) && update.write.vaddr.0
                == entry_address(table, client)
            &&& update.write.low & 1 == 0
            &&& forgets(update.context, update.iotlb, client, domain, unit.info.cap)
        },
{
    lemma_client_parts(client);
    lemma_context_words(1, 0, 0, 0);
    lemma_forgets(client, domain, unit.info.cap);
}

/// The root entry of a bus stands behind those of the buses below it, 16 bytes
/// each, and points at the context table: present, with the table's address.
pub proof fn law_root_entry_routes_its_bus(
    table: VtdRootTableBacking,
    bus: u8,
    root: PhysAddr,
)
    requires
        root.0 % 0x1000 == 0,
        root.0 < 0x10_0000_0000_0000,
    ensures
        ({
            let entry = VtdRootEntry::pointing_at(root);
            &&& entry.low == root.0 + 1
            &&& entry.high == 0
            &&& entry.spec_context_table_root() == Some(root)
            &&& match super::tables::root_write(table, bus, entry) {
                Ok(write) => {
                    &&& write.vaddr.0 == table.spec_backing().spec_virt().start.0 + bus * 16
                    &&& write.low == root.0 + 1
                    &&& write.high == 0
                },
                Err(_) => bus >= table.spec_backing().spec_entry_count()
                    || table.spec_backing().spec_virt().start.0 + bus * 16 > usize::MAX,
            }
        }),
{
    lemma_context_words(1, 0, root.0 as u64, 0);
    let word = root.0 as u64;
    assert(((word & 0x000f_ffff_ffff_f000) | 1) & 0x000f_ffff_ffff_f000 == word) by (bit_vector)
        requires
            word % 0x1000 == 0,
            word < 0x10_0000_0000_0000,
    ;
}

/// Routing an interrupt writes the table entry with the index that the device's
/// message selects, and forgets the unit's copy of that very entry.
pub proof fn law_interrupt_route_is_one_entry(
    table: VtdInterruptRemapTableBacking,
    entry: VtdInterruptEntry,
    subhandle: u16,
    remap: VtdInterruptRemapEntry,
)
    ensures
        match super::remap::remap_write(table, entry, remap) {
            Ok(write) => {
                &&& write.vaddr.0 == table.spec_backing().spec_virt().start.0 + entry.0 * 16
                &&& write.low == remap.low
                &&& write.high == remap.high
                &&& entry.0 < table.spec_backing().spec_entry_count()
            },
            Err(_) => entry.0 >= table.spec_backing().spec_entry_count()
                || table.spec_backing().spec_virt().start.0 + entry.0 * 16 > usize::MAX,
        },
        ({
            let cache = VtdQueuedInvalidationDescriptor::spec_interrupt_entry_cache(entry);
            let msi = super::remap::VtdRemappedMsi::of(entry, subhandle);
            let address = msi.message.address;
            &&& cache.low & 0x3f == 0x14
            &&& cache.low >> 32 == entry.0
            &&& cache.high == 0
            &&& msi.entry == entry
            &&& msi.message.data == subhandle
            &&& address >> 20 == 0xfee
            &&& (((address >> 5) & 0x7fff) | (((address >> 2) & 1) << 15)) == entry.0
            &&& (address >> 4) & 1 == 1
            &&& (address >> 3) & 1 == 1
        }),
{
    super::remap::law_remapped_message_selects_its_entry(entry);
    let (index, address) = (entry.0, super::remap::remapped_address(entry.0));
    assert((0x14u64 | ((index as u64) << 32)) & 0x3f == 0x14 && (0x14u64 | ((index as u64) << 32))
        >> 32 == index && (address & 0x18 == 0x18 ==> (address >> 4) & 1 == 1 && (address >> 3) & 1
        == 1)) by (bit_vector);
}

} // verus!
