//! Controller vocabulary: interrupt messages, descriptor tables, invalidation
//! requests and the controller contract.

use core::fmt::Debug;
use core::marker::PhantomData;
use vstd::prelude::*;

use crate::addr::{address_checked_add, Address, IoviAddr, PhysAddrRange, VirtAddr, VirtAddrRange};
use crate::caps::{Binding, BindingSelector, TranslationStage};
use crate::error::Error;
use crate::memory::PageSize;

verus! {

/// Target-neutral MSI/MSI-X style interrupt message.
///
/// The host interrupt subsystem owns vector allocation and PCI capability
/// programming. IOMMU controllers consume this value for controller-owned
/// paths such as fault-event delivery or interrupt-remapping entries.
#[derive(Clone, Copy, Debug, PartialEq, Eq, Hash, Structural)]
pub struct InterruptMessage {
    pub addr: u64,
    pub data: u32,
}

impl InterruptMessage {
    pub fn new(addr: u64, data: u32) -> (r: Self)
        ensures
            r == (InterruptMessage { addr, data }),
    {
        InterruptMessage { addr, data }
    }

    pub fn addr(self) -> (r: u64)
        ensures
            r == self.addr,
    {
        self.addr
    }

    pub fn data(self) -> (r: u32)
        ensures
            r == self.data,
    {
        self.data
    }
}

impl Default for InterruptMessage {
    fn default() -> (r: Self)
        ensures
            r == (InterruptMessage { addr: 0, data: 0 }),
    {
        InterruptMessage { addr: 0, data: 0 }
    }
}

/// Message that a device writes to raise an interrupt.
#[derive(Clone, Copy, Debug, PartialEq, Eq, Hash, Structural)]
pub struct MsiMessage {
    pub address: u64,
    pub data: u32,
}

impl MsiMessage {
    pub fn new(address: u64, data: u32) -> (r: Self)
        ensures
            r == (MsiMessage { address, data }),
    {
        MsiMessage { address, data }
    }

    pub fn address(self) -> (r: u64)
        ensures
            r == self.address,
    {
        self.address
    }

    pub fn data(self) -> (r: u32)
        ensures
            r == self.data,
    {
        self.data
    }
}

/// Where a controller sends its own interrupts.
#[derive(Clone, Copy, Debug, PartialEq, Eq, Structural)]
pub enum InterruptRoute {
    Disabled,
    Msi(MsiMessage),
}

/// Controller fault-event delivery configuration.
#[derive(Clone, Copy, Debug, PartialEq, Eq, Structural)]
pub struct FaultEventConfig {
    pub message: InterruptMessage,
    pub enabled: bool,
}

impl FaultEventConfig {
    pub fn new(message: InterruptMessage, enabled: bool) -> (r: Self)
        ensures
            r == (FaultEventConfig { message, enabled }),
    {
        FaultEventConfig { message, enabled }
    }

    pub fn message(self) -> (r: InterruptMessage)
        ensures
            r == self.message,
    {
        self.message
    }

    pub fn enabled(self) -> (r: bool)
        ensures
            r == self.enabled,
    {
        self.enabled
    }

    /// The route that the configuration asks for.
    pub fn route(self) -> (r: InterruptRoute)
        ensures
            r == (if self.enabled {
                InterruptRoute::Msi(
                    MsiMessage { address: self.message.addr, data: self.message.data },
                )
            } else {
                InterruptRoute::Disabled
            }),
    {
        if self.enabled {
            InterruptRoute::Msi(MsiMessage::new(self.message.addr, self.message.data))
        } else {
            InterruptRoute::Disabled
        }
    }
}

/// Caller-provided backing for one table of descriptors of `BYTES` bytes.
///
/// The backing must be physically contiguous and mapped writable at `virt` for
/// as long as hardware can consult the table.
#[derive(Clone, Copy, Debug, PartialEq, Eq)]
pub struct DescriptorTableBacking<const BYTES: usize> {
    phys: PhysAddrRange,
    virt: VirtAddrRange,
    entry_count: usize,
}

/// What is wrong with a table of the given shape, if anything. Descriptors are
/// written as 64-bit words, so their addresses are multiples of eight.
pub open spec fn table_fault(
    phys: PhysAddrRange,
    virt: VirtAddrRange,
    entry_count: usize,
    entry_bytes: usize,
    align: usize,
) -> Option<Error> {
    if entry_count == 0 {
        Some(Error::InvalidRange)
    } else if entry_count * entry_bytes > usize::MAX {
        Some(Error::AddressOverflow)
    } else if phys.spec_size() < entry_count * entry_bytes || virt.spec_size() < entry_count
        * entry_bytes {
        Some(Error::InvalidRange)
    } else if phys.start.0 % align != 0 || virt.start.0 % 8 != 0 {
        Some(Error::InvalidAddress)
    } else {
        None
    }
}

impl<const BYTES: usize> DescriptorTableBacking<BYTES> {
    pub closed spec fn spec_phys(self) -> PhysAddrRange {
        self.phys
    }

    pub closed spec fn spec_virt(self) -> VirtAddrRange {
        self.virt
    }

    pub closed spec fn spec_entry_count(self) -> usize {
        self.entry_count
    }

    /// The entries fit in both ranges, and the table starts at a multiple of
    /// `align`.
    pub open spec fn wf(self, align: usize) -> bool {
        table_fault(
            self.spec_phys(),
            self.spec_virt(),
            self.spec_entry_count(),
            BYTES,
            align,
        ) is None
    }

    pub fn new_aligned(
        phys: PhysAddrRange,
        virt: VirtAddrRange,
        entry_count: usize,
        align: usize,
    ) -> (r: Result<Self, Error>)
        requires
            align > 0,
        ensures
            match r {
                Ok(backing) => {
                    &&& table_fault(phys, virt, entry_count, BYTES, align) is None
                    &&& backing.wf(align)
                    &&& backing.spec_phys() == phys
                    &&& backing.spec_virt() == virt
                    &&& backing.spec_entry_count() == entry_count
                },
                Err(error) => table_fault(phys, virt, entry_count, BYTES, align) == Some(error),
            },
    {
        if entry_count == 0 {
            return Err(Error::InvalidRange);
        }
        let size: usize = match entry_count.checked_mul(BYTES) {
            Some(size) => size,
            None => return Err(Error::AddressOverflow),
        };
        if phys.size() < size || virt.size() < size {
            return Err(Error::InvalidRange);
        }
        if phys.start.as_usize() % align != 0 || virt.start.as_usize() % 8 != 0 {
            return Err(Error::InvalidAddress);
        }
        Ok(DescriptorTableBacking { phys, virt, entry_count })
    }

    pub fn phys(self) -> (r: PhysAddrRange)
        ensures
            r == self.spec_phys(),
    {
        self.phys
    }

    pub fn virt(self) -> (r: VirtAddrRange)
        ensures
            r == self.spec_virt(),
    {
        self.virt
    }

    pub fn entry_count(self) -> (r: usize)
        ensures
            r == self.spec_entry_count(),
    {
        self.entry_count
    }

    pub fn entry_bytes(self) -> (r: usize)
        ensures
            r == BYTES,
    {
        BYTES
    }

    pub fn byte_len(self) -> (r: usize)
        requires
            self.spec_entry_count() * BYTES <= usize::MAX,
        ensures
            r == self.spec_entry_count() * BYTES,
    {
        self.entry_count * BYTES
    }

    /// Where an entry lies: `index` descriptors behind the start, for an index
    /// inside the table.
    pub open spec fn spec_entry_vaddr(self, index: usize) -> Result<VirtAddr, Error> {
        if index >= self.spec_entry_count() {
            Err(Error::InvalidRange)
        } else if self.spec_virt().start.0 + index * BYTES > usize::MAX {
            Err(Error::AddressOverflow)
        } else {
            Ok(VirtAddr((self.spec_virt().start.0 + index * BYTES) as usize))
        }
    }

    pub fn entry_vaddr(self, index: usize) -> (r: Result<VirtAddr, Error>)
        ensures
            r == self.spec_entry_vaddr(index),
    {
        if index >= self.entry_count {
            return Err(Error::InvalidRange);
        }
        let offset: usize = match index.checked_mul(BYTES) {
            Some(offset) => offset,
            None => return Err(Error::AddressOverflow),
        };
        assert(index * BYTES >= 0) by (nonlinear_arith);
        match address_checked_add(self.virt.start.as_usize(), offset) {
            Some(addr) => Ok(VirtAddr::from_usize(addr)),
            None => Err(Error::AddressOverflow),
        }
    }
}

/// Every entry of a table whose virtual bounds are in order has an address, its
/// bytes lie inside the range, and no two entries overlap.
pub proof fn law_table_entries_are_disjoint<const BYTES: usize>(
    table: DescriptorTableBacking<BYTES>,
    align: usize,
    a: usize,
    b: usize,
)
    requires
        table.wf(align),
        table.spec_virt().start.0 <= table.spec_virt().end.0,
        a < b < table.spec_entry_count(),
    ensures
        match (table.spec_entry_vaddr(a), table.spec_entry_vaddr(b)) {
            (Ok(first), Ok(second)) => {
                &&& table.spec_virt().start.0 <= first.0
                &&& first.0 + BYTES <= second.0
                &&& second.0 + BYTES <= table.spec_virt().end.0
            },
            _ => false,
        },
{
    let count = table.spec_entry_count();
    assert(0 <= a * BYTES && a * BYTES + BYTES <= b * BYTES && b * BYTES + BYTES <= count * BYTES)
        by (nonlinear_arith)
        requires
            a + 1 <= b,
            b + 1 <= count,
    ;
}

/// One 128-bit descriptor, as two little-endian words, and where it is to be
/// written.
#[derive(Clone, Copy, Debug, PartialEq, Eq, Structural)]
pub struct TableWrite {
    pub vaddr: VirtAddr,
    pub low: u64,
    pub high: u64,
}

/// The address of the `index`th page of a flush, which stops at the end of the
/// address space.
pub open spec fn flush_address(start: usize, stride: usize, index: int) -> int {
    if start + index * stride <= usize::MAX {
        start + index * stride
    } else {
        usize::MAX as int
    }
}

/// The addresses of the pages of a flush, in the order in which they are
/// flushed.
pub fn flush_addresses(start: usize, stride: usize, count: usize) -> (r: Vec<usize>)
    ensures
        r@.len() == count,
        forall|i: int| 0 <= i < count ==> #[trigger] r@[i] == flush_address(start, stride, i),
{
    let mut addresses: Vec<usize> = Vec::new();
    let mut base: usize = start;
    let mut i: usize = 0;
    while i < count
        invariant
            i <= count,
            addresses@.len() == i,
            base == flush_address(start, stride, i as int),
            forall|j: int|
                0 <= j < i ==> #[trigger] addresses@[j] == flush_address(start, stride, j),
        decreases count - i,
    {
        addresses.push(base);
        assert((i + 1) * stride == i * stride + stride) by (nonlinear_arith);
        assert(i * stride >= 0) by (nonlinear_arith);
        base = base.saturating_add(stride);
        i = i + 1;
    }
    addresses
}

/// Invalidation of translations that the local CPU holds.
pub trait TlbInvalidation<V: Address> {
    fn flush_tlb_local(&self, vaddr: V);

    fn flush_tlb_all_local(&self);

    fn flush_tlb_range_local(&self, start: V, page_size: PageSize, count_pages: usize);

    /// Whether one full flush is better than `pending_count` single ones.
    fn prefer_full_flush(&self, pending_count: usize) -> bool;
}

/// IOTLB invalidation contract.
///
/// The supertrait is the CPU-side invalidation hook. Device-facing
/// implementations can therefore be passed directly into a map/unmap call while
/// also carrying IOTLB and device-TLB invalidation primitives for the
/// controller's post-write hardware synchronization.
pub trait IoTlbInvalidation<V: Address = IoviAddr>: TlbInvalidation<V> {
    type Client: Copy + Debug + Eq;

    fn flush_iotlb(&self, iova: V);

    fn flush_iotlb_all(&self);

    /// Flushes the pages one by one, each at its own address. Each of these has
    /// to be one that the address type holds.
    fn flush_iotlb_range(&self, start: V, page_size: PageSize, count_pages: usize)
        requires
            page_size.spec_bytes() <= usize::MAX,
            forall|i: int|
                0 <= i < count_pages ==> #[trigger] flush_address(
                    start.value(),
                    page_size.spec_bytes() as usize,
                    i,
                ) <= V::limit(),
        default_ensures
            forall|k: int|
                #![trigger flush_address(start.value(), page_size.spec_bytes() as usize, k)]
                0 <= k < count_pages ==> exists|at: V|
                    #![trigger at.value()]
                    at.value() == flush_address(
                        start.value(),
                        page_size.spec_bytes() as usize,
                        k,
                    ) && call_ensures(<Self as IoTlbInvalidation<V>>::flush_iotlb, (self, at), ()),
    {
        let stride: usize = page_size.bytes();
        let addresses = flush_addresses(start.to_usize(), stride, count_pages);
        assert forall|j: int| 0 <= j < count_pages implies #[trigger] addresses@[j]
            <= V::limit() by {
            assert(stride == page_size.spec_bytes() as usize);
            assert(flush_address(start.value(), page_size.spec_bytes() as usize, j) <= V::limit());
            assert(addresses@[j] == flush_address(start.value(), stride, j));
        }
        let mut i: usize = 0;
        while i < count_pages
            invariant
                i <= count_pages,
                addresses@.len() == count_pages,
                forall|j: int| 0 <= j < count_pages ==> #[trigger] addresses@[j] <= V::limit(),
                forall|j: int|
                    0 <= j < i ==> exists|at: V|
                        #![trigger at.value()]
                        at.value() == #[trigger] addresses@[j] && call_ensures(
                            <Self as IoTlbInvalidation<V>>::flush_iotlb,
                            (self, at),
                            (),
                        ),
            decreases count_pages - i,
        {
            let at = V::of_usize(addresses[i]);
            self.flush_iotlb(at);
            i = i + 1;
        }
        assert forall|k: int|
            #![trigger flush_address(start.value(), page_size.spec_bytes() as usize, k)]
            0 <= k < count_pages implies exists|at: V|
            #![trigger at.value()]
            at.value() == flush_address(start.value(), page_size.spec_bytes() as usize, k)
                && call_ensures(<Self as IoTlbInvalidation<V>>::flush_iotlb, (self, at), ()) by {
            assert(addresses@[k] == flush_address(start.value(), stride, k));
        }
    }

    fn flush_device_tlb(&self, client: Self::Client, iova: V);

    fn flush_device_tlb_all(&self, client: Self::Client);

    /// Flushes the pages one by one, each at its own address. Each of these has
    /// to be one that the address type holds.
    fn flush_device_tlb_range(
        &self,
        client: Self::Client,
        start: V,
        page_size: PageSize,
        count_pages: usize,
    )
        requires
            page_size.spec_bytes() <= usize::MAX,
            forall|i: int|
                0 <= i < count_pages ==> #[trigger] flush_address(
                    start.value(),
                    page_size.spec_bytes() as usize,
                    i,
                ) <= V::limit(),
        default_ensures
            forall|k: int|
                #![trigger flush_address(start.value(), page_size.spec_bytes() as usize, k)]
                0 <= k < count_pages ==> exists|at: V|
                    #![trigger at.value()]
                    at.value() == flush_address(
                        start.value(),
                        page_size.spec_bytes() as usize,
                        k,
                    ) && call_ensures(<Self as IoTlbInvalidation<V>>::flush_device_tlb, (self, client, at), ()),
    {
        let stride: usize = page_size.bytes();
        let addresses = flush_addresses(start.to_usize(), stride, count_pages);
        assert forall|j: int| 0 <= j < count_pages implies #[trigger] addresses@[j]
            <= V::limit() by {
            assert(stride == page_size.spec_bytes() as usize);
            assert(flush_address(start.value(), page_size.spec_bytes() as usize, j) <= V::limit());
            assert(addresses@[j] == flush_address(start.value(), stride, j));
        }
        let mut i: usize = 0;
        while i < count_pages
            invariant
                i <= count_pages,
                addresses@.len() == count_pages,
                forall|j: int| 0 <= j < count_pages ==> #[trigger] addresses@[j] <= V::limit(),
                forall|j: int|
                    0 <= j < i ==> exists|at: V|
                        #![trigger at.value()]
                        at.value() == #[trigger] addresses@[j] && call_ensures(
                            <Self as IoTlbInvalidation<V>>::flush_device_tlb,
                            (self, client, at),
                            (),
                        ),
            decreases count_pages - i,
        {
            let at = V::of_usize(addresses[i]);
            self.flush_device_tlb(client, at);
            i = i + 1;
        }
        assert forall|k: int|
            #![trigger flush_address(start.value(), page_size.spec_bytes() as usize, k)]
            0 <= k < count_pages implies exists|at: V|
            #![trigger at.value()]
            at.value() == flush_address(start.value(), page_size.spec_bytes() as usize, k)
                && call_ensures(<Self as IoTlbInvalidation<V>>::flush_device_tlb, (self, client, at), ()) by {
            assert(addresses@[k] == flush_address(start.value(), stride, k));
        }
    }

    /// Whether one full flush is better than `pending_count` single ones: what
    /// holds for the local CPU holds here too, unless an implementation knows
    /// better.
    fn prefer_full_iotlb_flush(&self, pending_count: usize) -> (r: bool)
        default_ensures
            call_ensures(
                <Self as TlbInvalidation<V>>::prefer_full_flush,
                (self, pending_count),
                r,
            ),
    {
        self.prefer_full_flush(pending_count)
    }
}

/// Unit requester identity for APIs that need a client type but ignore it.
#[derive(Clone, Copy, Debug, PartialEq, Eq, Hash, Structural)]
pub struct NoClient;

impl Default for NoClient {
    fn default() -> (r: Self) {
        NoClient
    }
}

/// No-op IOTLB invalidator for host tests and pre-hardware table construction.
#[derive(Debug)]
pub struct NoIoTlbFlush<Client = NoClient>(PhantomData<Client>);

impl<Client> Clone for NoIoTlbFlush<Client> {
    fn clone(&self) -> (r: Self)
        ensures
            r == *self,
    {
        NoIoTlbFlush(PhantomData)
    }
}

impl<Client> Copy for NoIoTlbFlush<Client> {

}

impl<Client> NoIoTlbFlush<Client> {
    pub fn new() -> (r: Self) {
        NoIoTlbFlush(PhantomData)
    }
}

impl<Client> Default for NoIoTlbFlush<Client> {
    fn default() -> (r: Self) {
        Self::new()
    }
}

impl<V: Address, Client: Copy + Debug + Eq> TlbInvalidation<V> for NoIoTlbFlush<Client> {
    fn flush_tlb_local(&self, _vaddr: V) {
    }

    fn flush_tlb_all_local(&self) {
    }

    fn flush_tlb_range_local(&self, _start: V, _page_size: PageSize, _count_pages: usize) {
    }

    fn prefer_full_flush(&self, _pending_count: usize) -> bool
        returns
            false,
    {
        false
    }
}

impl<V: Address, Client: Copy + Debug + Eq> IoTlbInvalidation<V> for NoIoTlbFlush<Client> {
    type Client = Client;

    fn flush_iotlb(&self, _iova: V) {
    }

    fn flush_iotlb_all(&self) {
    }

    fn flush_iotlb_range(&self, _start: V, _page_size: PageSize, _count_pages: usize) {
    }

    fn flush_device_tlb(&self, _client: Client, _iova: V) {
    }

    fn flush_device_tlb_all(&self, _client: Client) {
    }

    fn flush_device_tlb_range(
        &self,
        _client: Client,
        _start: V,
        _page_size: PageSize,
        _count_pages: usize,
    ) {
    }

    fn prefer_full_iotlb_flush(&self, _pending_count: usize) -> bool
        returns
            false,
    {
        false
    }
}

/// Explicit invalidation request against one controller.
#[derive(Clone, Copy, Debug, PartialEq, Eq)]
pub enum Invalidate<Client, V = IoviAddr> {
    Global,
    AddressSpace,
    Leaf { iova: V, granule: PageSize },
    Device { client: Client },
    DeviceLeaf { client: Client, iova: V, granule: PageSize },
}

/// Effective invalidate scope completed by hardware.
#[derive(Clone, Copy, Debug, PartialEq, Eq, Structural)]
pub enum InvalidateScope {
    Global,
    Domain,
    Leaf,
    Device,
    DeviceLeaf,
}

/// Result summary for one invalidate request.
#[derive(Clone, Copy, Debug, PartialEq, Eq, Structural)]
pub struct InvalidateOutcome {
    pub scope: InvalidateScope,
    pub queued: bool,
}

impl InvalidateOutcome {
    pub fn new(scope: InvalidateScope, queued: bool) -> (r: Self)
        ensures
            r == (InvalidateOutcome { scope, queued }),
    {
        InvalidateOutcome { scope, queued }
    }

    pub fn scope(self) -> (r: InvalidateScope)
        ensures
            r == self.scope,
    {
        self.scope
    }

    pub fn queued(self) -> (r: bool)
        ensures
            r == self.queued,
    {
        self.queued
    }
}

/// Live IOMMU controller contract: attachment, invalidation, and fault paths.
pub trait Controller<V: Address = IoviAddr> {
    type Info;

    type Client: Copy + Debug + Eq;

    type Domain: Copy + Debug + Eq;

    type Invalidator: IoTlbInvalidation<V, Client = Self::Client>;

    type Fault;

    fn info(&self) -> &Self::Info;

    fn domain(&self) -> Self::Domain;

    fn stage(&self) -> TranslationStage;

    fn enable(&mut self) -> Result<(), Error>;

    fn bind(&mut self, binding: Binding<Self::Client, Self::Domain>) -> Result<(), Error>;

    fn unbind(&mut self, client: Self::Client, selector: BindingSelector) -> Result<(), Error>;

    fn invalidator(&self) -> &Self::Invalidator;

    fn invalidate(&mut self, request: Invalidate<Self::Client, V>) -> Result<
        InvalidateOutcome,
        Error,
    >;

    fn configure_fault_event(&mut self, config: FaultEventConfig) -> Result<(), Error>;

    fn poll_fault(&mut self) -> Result<Option<Self::Fault>, Error>;
}

/// Table memory is accepted where its entries are at least one, fit into both
/// of its ranges, and start at a multiple of the alignment, eight bytes for the
/// virtual one; else the first of these that does not hold is named.
pub proof fn law_table_memory_holds_its_entries(
    phys: PhysAddrRange,
    virt: VirtAddrRange,
    entry_count: usize,
    entry_bytes: usize,
    align: usize,
)
    requires
        align > 0,
    ensures
        ({
            let bytes = entry_count * entry_bytes;
            let fits = bytes <= phys.spec_size() && bytes <= virt.spec_size();
            let placed = phys.start.0 as int % align as int == 0 && virt.start.0 % 8 == 0;
            match table_fault(phys, virt, entry_count, entry_bytes, align) {
                None => entry_count > 0 && bytes <= usize::MAX && fits && placed,
                Some(Error::InvalidRange) => entry_count == 0 || bytes <= usize::MAX && !fits,
                Some(Error::AddressOverflow) => entry_count > 0 && bytes > usize::MAX,
                Some(Error::InvalidAddress) => entry_count > 0 && fits && !placed,
                Some(_) => false,
            }
        }),
{
}

/// The addresses of a range follow each other at the distance of the pages, and
/// stop at the top of the address space.
pub proof fn law_flushed_addresses_follow_each_other(start: usize, stride: usize, index: int)
    requires
        index >= 0,
    ensures
        flush_address(start, stride, 0) == start,
        flush_address(start, stride, index + 1) == (if flush_address(start, stride, index) + stride
            <= usize::MAX {
            flush_address(start, stride, index) + stride
        } else {
            usize::MAX as int
        }),
{
    assert((index + 1) * stride == index * stride + stride && index * stride >= 0 && 0 * stride
        == 0) by (nonlinear_arith)
        requires
            index >= 0,
            stride >= 0,
    ;
}

} // verus!
