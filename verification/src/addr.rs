//! Physical, virtual, MMIO, I/O virtual and port addresses.

use core::marker::PhantomData;
use vstd::prelude::*;
use vstd::std_specs::convert::FromSpecImpl;

verus! {

/// `memory_addr::AddrRange::try_from_start_size` over plain addresses: the
/// pair of `start` and `start + size`, or `None` where the sum does not fit in
/// an address.
#[verifier::external_body]
fn range_from_start_size(start: usize, size: usize) -> (r: Option<(usize, usize)>)
    ensures
        r == (if start + size <= usize::MAX {
            Some((start, (start + size) as usize))
        } else {
            None
        }),
{
    match memory_addr::AddrRange::<usize>::try_from_start_size(start, size) {
        Some(range) => Some((range.start, range.end)),
        None => None,
    }
}

/// `memory_addr::AddrRange::size` over plain bounds: the distance from `start`
/// to `end`, wrapping around the address space where `end` is below `start`.
#[verifier::external_body]
fn range_size(start: usize, end: usize) -> (r: usize)
    ensures
        start <= end ==> r == end - start,
        start > end ==> r == end - start + usize::MAX + 1,
{
    memory_addr::AddrRange::<usize> { start, end }.size()
}

/// `memory_addr::MemoryAddr::checked_add` on a plain address: the sum, or
/// `None` where it does not fit.
#[verifier::external_body]
pub(crate) fn address_checked_add(addr: usize, offset: usize) -> (r: Option<usize>)
    ensures
        r == (if addr + offset <= usize::MAX {
            Some((addr + offset) as usize)
        } else {
            None
        }),
{
    <usize as memory_addr::MemoryAddr>::checked_add(addr, offset)
}

/// `memory_addr::is_aligned`: whether `addr` is a multiple of `align`, which
/// the crate documents for powers of two only.
#[verifier::external_body]
pub(crate) fn address_is_aligned(addr: usize, align: usize) -> (r: bool)
    requires
        crate::bits::is_pow2(align as int),
    ensures
        r == (addr % align == 0),
{
    memory_addr::is_aligned(addr, align)
}

/// Address types: a number no larger than [`Address::limit`].
pub trait Address: Copy + Sized {
    /// The address as a number.
    spec fn value(self) -> usize;

    /// The largest number that is an address of this type.
    spec fn limit() -> usize;

    fn to_usize(self) -> (r: usize)
        ensures
            r == self.value(),
            r <= Self::limit(),
    ;

    fn of_usize(value: usize) -> (r: Self)
        requires
            value <= Self::limit(),
        ensures
            r.value() == value,
    ;
}

/// Physical memory address.
#[derive(Clone, Copy, Debug, Default, PartialEq, Eq, PartialOrd, Ord, Hash, Structural)]
pub struct PhysAddr(pub usize);

impl PhysAddr {
    pub fn from_usize(addr: usize) -> (r: Self)
        ensures
            r == PhysAddr(addr),
    {
        PhysAddr(addr)
    }

    pub fn as_usize(self) -> (r: usize)
        ensures
            r == self.0,
    {
        self.0
    }
}

impl PhysAddr {
    /// Whether the address is a multiple of `align`.
    pub fn is_aligned(self, align: usize) -> (r: bool)
        requires
            crate::bits::is_pow2(align as int),
        ensures
            r == (self.0 as int % align as int == 0),
    {
        address_is_aligned(self.0, align)
    }
}

impl Address for PhysAddr {
    open spec fn value(self) -> usize {
        self.0
    }

    open spec fn limit() -> usize {
        usize::MAX
    }

    fn to_usize(self) -> (r: usize) {
        self.0
    }

    fn of_usize(value: usize) -> (r: Self) {
        PhysAddr(value)
    }
}

impl From<usize> for PhysAddr {
    fn from(addr: usize) -> (r: Self) {
        PhysAddr(addr)
    }
}

impl FromSpecImpl<usize> for PhysAddr {
    open spec fn obeys_from_spec() -> bool {
        true
    }

    open spec fn from_spec(addr: usize) -> Self {
        PhysAddr(addr)
    }
}

/// Kernel virtual address.
#[derive(Clone, Copy, Debug, Default, PartialEq, Eq, PartialOrd, Ord, Hash, Structural)]
pub struct VirtAddr(pub usize);

impl VirtAddr {
    pub fn from_usize(addr: usize) -> (r: Self)
        ensures
            r == VirtAddr(addr),
    {
        VirtAddr(addr)
    }

    pub fn as_usize(self) -> (r: usize)
        ensures
            r == self.0,
    {
        self.0
    }
}

impl Address for VirtAddr {
    open spec fn value(self) -> usize {
        self.0
    }

    open spec fn limit() -> usize {
        usize::MAX
    }

    fn to_usize(self) -> (r: usize) {
        self.0
    }

    fn of_usize(value: usize) -> (r: Self) {
        VirtAddr(value)
    }
}

impl From<usize> for VirtAddr {
    fn from(addr: usize) -> (r: Self) {
        VirtAddr(addr)
    }
}

impl FromSpecImpl<usize> for VirtAddr {
    open spec fn obeys_from_spec() -> bool {
        true
    }

    open spec fn from_spec(addr: usize) -> Self {
        VirtAddr(addr)
    }
}

/// Unsigned integer types that can be used as the underlying representation
/// for MMIO and IOVA addresses.
pub trait Unsigned: Copy + Ord + Sized {
    /// The largest address that the representation holds.
    const MAX: usize;

    /// The largest address that the representation holds.
    spec fn max_addr() -> usize;

    /// The address that the representation stands for.
    spec fn addr(self) -> usize;

    /// The constant is what contracts call the largest address.
    proof fn lemma_max()
        ensures
            Self::MAX == Self::max_addr(),
    ;

    /// What [`Unsigned::checked_add`] returns.
    spec fn checked_add_spec(self, offset: usize) -> Option<Self>;

    /// Adds `offset`, cut to the width of the representation.
    fn checked_add(self, offset: usize) -> (r: Option<Self>)
        ensures
            r == self.checked_add_spec(offset),
    ;

    fn into_usize(self) -> (r: usize)
        ensures
            r == self.addr(),
            r <= Self::max_addr(),
    ;

    fn from_usize(value: usize) -> (r: Self)
        requires
            value <= Self::max_addr(),
        ensures
            r.addr() == value,
    ;
}

impl Unsigned for u32 {
    const MAX: usize = u32::MAX as usize;

    open spec fn max_addr() -> usize {
        u32::MAX as usize
    }

    proof fn lemma_max() {
    }

    open spec fn addr(self) -> usize {
        self as usize
    }

    open spec fn checked_add_spec(self, offset: usize) -> Option<Self> {
        if self + (offset as u32) <= u32::MAX {
            Some((self + (offset as u32)) as u32)
        } else {
            None
        }
    }

    fn checked_add(self, offset: usize) -> (r: Option<Self>) {
        u32::checked_add(self, offset as u32)
    }

    fn into_usize(self) -> (r: usize) {
        self as usize
    }

    fn from_usize(value: usize) -> (r: Self) {
        value as u32
    }
}

impl Unsigned for u64 {
    const MAX: usize = usize::MAX;

    open spec fn max_addr() -> usize {
        usize::MAX
    }

    proof fn lemma_max() {
    }

    open spec fn addr(self) -> usize {
        self as usize
    }

    open spec fn checked_add_spec(self, offset: usize) -> Option<Self> {
        if self + offset <= u64::MAX {
            Some((self + offset) as u64)
        } else {
            None
        }
    }

    fn checked_add(self, offset: usize) -> (r: Option<Self>) {
        u64::checked_add(self, offset as u64)
    }

    fn into_usize(self) -> (r: usize) {
        self as usize
    }

    fn from_usize(value: usize) -> (r: Self) {
        value as u64
    }
}

impl Unsigned for usize {
    const MAX: usize = usize::MAX;

    open spec fn max_addr() -> usize {
        usize::MAX
    }

    proof fn lemma_max() {
    }

    open spec fn addr(self) -> usize {
        self
    }

    open spec fn checked_add_spec(self, offset: usize) -> Option<Self> {
        if self + offset <= usize::MAX {
            Some((self + offset) as usize)
        } else {
            None
        }
    }

    fn checked_add(self, offset: usize) -> (r: Option<Self>) {
        usize::checked_add(self, offset)
    }

    fn into_usize(self) -> (r: usize) {
        self
    }

    fn from_usize(value: usize) -> (r: Self) {
        value
    }
}

/// MMIO address-space marker.
#[derive(Clone, Copy, Debug, PartialEq, Eq, PartialOrd, Ord, Hash)]
pub enum MmioSpace {
    Mmio,
}

/// I/O virtual address-space marker.
#[derive(Clone, Copy, Debug, PartialEq, Eq, PartialOrd, Ord, Hash)]
pub enum IoviSpace {
    Iovi,
}

/// Address of one I/O address space, held in `T`.
#[derive(Debug, PartialEq, Eq, PartialOrd, Ord, Hash)]
pub struct IoAddr<T: Unsigned, Space>(T, PhantomData<Space>);

impl<T: Unsigned, Space> Clone for IoAddr<T, Space> {
    fn clone(&self) -> (r: Self)
        ensures
            r == *self,
    {
        *self
    }
}

impl<T: Unsigned, Space> Copy for IoAddr<T, Space> {

}

impl<T: Unsigned, Space> IoAddr<T, Space> {
    /// The address as a number.
    pub closed spec fn view(self) -> usize {
        self.0.addr()
    }

    pub fn as_usize(&self) -> (r: usize)
        ensures
            r == self@,
            r <= T::max_addr(),
    {
        self.0.into_usize()
    }

    pub fn from_usize(addr: usize) -> (r: Self)
        requires
            addr <= T::max_addr(),
        ensures
            r@ == addr,
    {
        IoAddr(T::from_usize(addr), PhantomData)
    }

    /// The product, or `None` where it does not fit in `usize`. A product
    /// that fits in `usize` has to fit in `T` too.
    pub fn checked_mul(&self, factor: usize) -> (r: Option<Self>)
        requires
            representable::<T>(self@ * factor),
        ensures
            match r {
                Some(addr) => self@ * factor <= usize::MAX && addr@ == self@ * factor,
                None => self@ * factor > usize::MAX,
            },
    {
        match self.as_usize().checked_mul(factor) {
            Some(product) => Some(Self::from_usize(product)),
            None => None,
        }
    }

    /// The sum, or `None` where it does not fit in `usize`. A sum that fits
    /// in `usize` has to fit in `T` too.
    pub fn checked_add(self, offset: usize) -> (r: Option<Self>)
        requires
            representable::<T>(self@ + offset),
        ensures
            match r {
                Some(addr) => self@ + offset <= usize::MAX && addr@ == self@ + offset,
                None => self@ + offset > usize::MAX,
            },
    {
        match address_checked_add(self.as_usize(), offset) {
            Some(sum) => Some(Self::from_usize(sum)),
            None => None,
        }
    }

    /// Whether the address is a multiple of `align`, a power of two.
    pub fn is_aligned(self, align: usize) -> (r: bool)
        requires
            crate::bits::is_pow2(align as int),
        ensures
            r == (self@ % align == 0),
    {
        address_is_aligned(self.as_usize(), align)
    }
}

/// Whether `value`, where it is a number of the address space at all, fits in
/// the representation `T`.
pub open spec fn representable<T: Unsigned>(value: int) -> bool {
    value <= usize::MAX ==> value <= T::max_addr()
}

impl<T: Unsigned> IoAddr<T, MmioSpace> {
    pub fn from_phys(addr: PhysAddr) -> (r: Self)
        requires
            addr.0 <= T::max_addr(),
        ensures
            r@ == addr.0,
    {
        Self::from_usize(addr.as_usize())
    }

    pub fn as_phys(self) -> (r: PhysAddr)
        ensures
            r == PhysAddr(self@),
    {
        PhysAddr::from_usize(self.as_usize())
    }
}

impl<T: Unsigned, Space> From<IoAddr<T, Space>> for usize {
    fn from(addr: IoAddr<T, Space>) -> (r: Self) {
        addr.as_usize()
    }
}

impl<T: Unsigned, Space> FromSpecImpl<IoAddr<T, Space>> for usize {
    open spec fn obeys_from_spec() -> bool {
        true
    }

    open spec fn from_spec(addr: IoAddr<T, Space>) -> Self {
        addr@
    }
}

impl<T: Unsigned, Space> Address for IoAddr<T, Space> {
    open spec fn value(self) -> usize {
        self@
    }

    open spec fn limit() -> usize {
        T::max_addr()
    }

    fn to_usize(self) -> (r: usize) {
        self.as_usize()
    }

    fn of_usize(value: usize) -> (r: Self) {
        Self::from_usize(value)
    }
}

/// Memory-mapped I/O address.
pub type MmioAddr<T = usize> = IoAddr<T, MmioSpace>;

/// I/O virtual address.
pub type IoviAddr<T = usize> = IoAddr<T, IoviSpace>;

pub type Mmio32Addr = MmioAddr<u32>;

pub type Iovi32Addr = IoviAddr<u32>;

impl<Space> From<usize> for IoAddr<usize, Space> {
    fn from(addr: usize) -> (r: Self) {
        IoAddr(addr, PhantomData)
    }
}

impl<Space> FromSpecImpl<usize> for IoAddr<usize, Space> {
    open spec fn obeys_from_spec() -> bool {
        true
    }

    closed spec fn from_spec(addr: usize) -> Self {
        IoAddr(addr, PhantomData)
    }
}

impl<Space> From<usize> for IoAddr<u64, Space> {
    fn from(addr: usize) -> (r: Self) {
        IoAddr(addr as u64, PhantomData)
    }
}

impl<Space> FromSpecImpl<usize> for IoAddr<u64, Space> {
    open spec fn obeys_from_spec() -> bool {
        true
    }

    closed spec fn from_spec(addr: usize) -> Self {
        IoAddr(addr as u64, PhantomData)
    }
}

/// Converting a number to an I/O address and back gives the number.
pub proof fn law_io_addr_round_trip<Space>(addr: usize)
    ensures
        <IoAddr<usize, Space> as vstd::std_specs::convert::FromSpec<usize>>::from_spec(addr)@ == addr,
        <IoAddr<u64, Space> as vstd::std_specs::convert::FromSpec<usize>>::from_spec(addr)@ == addr,
{
}

impl<Space> IoAddr<usize, Space> {
    /// The address with the given number.
    pub closed spec fn of(addr: usize) -> Self {
        IoAddr(addr, PhantomData)
    }

    /// An address is determined by its number.
    pub proof fn lemma_of(self)
        ensures
            Self::of(self@) == self,
    {
    }

    /// The address with a given number has that number.
    pub proof fn lemma_of_number(addr: usize)
        ensures
            Self::of(addr)@ == addr,
    {
    }
}

/// The MMIO window of `size` bytes at `base`, where it fits in the address
/// space.
pub fn mmio_window_at(base: usize, size: usize) -> (r: Option<MmioAddrRange>)
    ensures
        r == (if base + size <= usize::MAX {
            Some(mmio_window(base, size as int))
        } else {
            None
        }),
{
    match <MmioAddrRange as MmioRange<usize>>::from_start_size(IoAddr::from_usize(base), size) {
        Some(range) => {
            proof {
                range.start.lemma_of();
                range.end.lemma_of();
            }
            Some(range)
        },
        None => None,
    }
}

/// The MMIO window of `size` bytes at `base`.
pub open spec fn mmio_window(base: usize, size: int) -> MmioAddrRange {
    AddrRange { start: IoAddr::of(base), end: IoAddr::of((base + size) as usize) }
}

/// An MMIO window starts at its base and ends its size behind it.
pub proof fn law_mmio_window_bounds(base: usize, size: int)
    requires
        0 <= size,
        base + size <= usize::MAX,
    ensures
        mmio_window(base, size).start@ == base,
        mmio_window(base, size).end@ == base + size,
{
    IoAddr::<usize, MmioSpace>::lemma_of_number(base);
    IoAddr::<usize, MmioSpace>::lemma_of_number((base + size) as usize);
}

/// Range of addresses. `end` is exclusive.
#[derive(Clone, Copy, Debug, PartialEq, Eq, Hash)]
pub struct AddrRange<A> {
    pub start: A,
    pub end: A,
}

impl<A: Address> AddrRange<A> {
    /// The number of addresses from `start` to `end`, going round the address
    /// space where the bounds are reversed.
    pub open spec fn spec_size(self) -> int {
        if self.start.value() <= self.end.value() {
            self.end.value() - self.start.value()
        } else {
            self.end.value() - self.start.value() + usize::MAX + 1
        }
    }

    /// Whether two ranges have the same bounds.
    pub open spec fn same_bounds(self, other: Self) -> bool {
        self.start.value() == other.start.value() && self.end.value() == other.end.value()
    }

    pub fn new(start: A, end: A) -> (r: Self)
        requires
            start.value() <= end.value(),
        ensures
            r == (AddrRange { start, end }),
    {
        AddrRange { start, end }
    }

    /// The range of `size` addresses from `start`, which has to end inside the
    /// address type.
    pub fn from_start_size(start: A, size: usize) -> (r: Self)
        requires
            start.value() + size <= A::limit(),
        ensures
            r.start == start,
            r.end.value() == start.value() + size,
    {
        AddrRange { start, end: A::of_usize(start.to_usize() + size) }
    }

    /// The range of `size` addresses from `start`, or `None` where its end
    /// does not fit in `usize`.
    pub fn try_from_start_size(start: A, size: usize) -> (r: Option<Self>)
        requires
            start.value() + size <= usize::MAX ==> start.value() + size <= A::limit(),
        ensures
            match r {
                Some(range) => {
                    &&& start.value() + size <= usize::MAX
                    &&& range.start == start
                    &&& range.end.value() == start.value() + size
                },
                None => start.value() + size > usize::MAX,
            },
    {
        match range_from_start_size(start.to_usize(), size) {
            Some(bounds) => Some(AddrRange { start, end: A::of_usize(bounds.1) }),
            None => None,
        }
    }

    pub fn size(self) -> (r: usize)
        ensures
            r == self.spec_size(),
    {
        range_size(self.start.to_usize(), self.end.to_usize())
    }

    pub fn is_empty(self) -> (r: bool)
        ensures
            r == (self.start.value() >= self.end.value()),
    {
        self.start.to_usize() >= self.end.to_usize()
    }

    pub fn contains(self, addr: A) -> (r: bool)
        ensures
            r == (self.start.value() <= addr.value() < self.end.value()),
    {
        self.start.to_usize() <= addr.to_usize() && addr.to_usize() < self.end.to_usize()
    }

    pub fn has_bounds_of(self, other: Self) -> (r: bool)
        ensures
            r == self.same_bounds(other),
    {
        self.start.to_usize() == other.start.to_usize() && self.end.to_usize()
            == other.end.to_usize()
    }
}

pub type PhysAddrRange = AddrRange<PhysAddr>;

pub type VirtAddrRange = AddrRange<VirtAddr>;

/// Range of MMIO addresses. `end` is exclusive, matching the convention used
/// by [`AddrRange`].
pub type MmioAddrRange<T = usize> = AddrRange<IoAddr<T, MmioSpace>>;

/// Range of I/O virtual addresses. `end` is exclusive, matching the convention
/// used by [`AddrRange`].
pub type IoviAddrRange<T = usize> = AddrRange<IoAddr<T, IoviSpace>>;

pub type Mmio32AddrRange = MmioAddrRange<u32>;

pub type Iovi32AddrRange = IoviAddrRange<u32>;

/// Whether an access of `width` bytes at `offset` lies inside a window that
/// starts at `first` and ends before `last`.
pub open spec fn register_fits(first: usize, last: usize, offset: usize, width: int) -> bool {
    first + offset + width <= last
}

/// Extension methods for MMIO address ranges, providing convenient methods for
/// constructing and accessing registers at fixed offsets from a base address.
/// These methods return `Option` to reflect the possibility of out-of-bounds
/// accesses when the offset is too large for the range.
pub trait MmioRange<T: Unsigned>: Sized {
    /// First address of the window.
    spec fn first(self) -> usize;

    /// First address behind the window.
    spec fn last(self) -> usize;

    fn from_start_size(start: MmioAddr<T>, size: usize) -> (r: Option<Self>)
        requires
            representable::<T>(start@ + size),
        ensures
            match r {
                Some(range) => start@ + size <= usize::MAX && range.first() == start@
                    && range.last() == start@ + size,
                None => start@ + size > usize::MAX,
            },
    ;

    fn from_phys_range(range: PhysAddrRange) -> (r: Self)
        requires
            range.start.0 <= T::max_addr(),
            range.end.0 <= T::max_addr(),
        ensures
            r.first() == range.start.0,
            r.last() == range.end.0,
    ;

    fn from_phys_start_size(start: PhysAddr, size: usize) -> (r: Option<Self>)
        requires
            start.0 <= T::max_addr(),
            representable::<T>(start.0 + size),
        ensures
            match r {
                Some(range) => start.0 + size <= usize::MAX && range.first() == start.0
                    && range.last() == start.0 + size,
                None => start.0 + size > usize::MAX,
            },
    ;

    fn to_phys_range(self) -> (r: PhysAddrRange)
        ensures
            r == (AddrRange { start: PhysAddr(self.first()), end: PhysAddr(self.last()) }),
    ;

    fn as_phys_range(self) -> (r: PhysAddrRange)
        ensures
            r == (AddrRange { start: PhysAddr(self.first()), end: PhysAddr(self.last()) }),
    {
        self.to_phys_range()
    }

    /// The address at `offset`, where `W` bytes from there lie in the window.
    fn reg<const W: usize>(self, offset: usize) -> (r: Option<MmioAddr<T>>)
        ensures
            r is Some == register_fits(self.first(), self.last(), offset, W as int),
            r matches Some(addr) ==> addr@ == self.first() + offset,
    ;

    fn reg8(self, offset: usize) -> (r: Option<MmioAddr<T>>)
        ensures
            r is Some == register_fits(self.first(), self.last(), offset, 1),
            r matches Some(addr) ==> addr@ == self.first() + offset,
    ;

    fn reg16(self, offset: usize) -> (r: Option<MmioAddr<T>>)
        ensures
            r is Some == register_fits(self.first(), self.last(), offset, 2),
            r matches Some(addr) ==> addr@ == self.first() + offset,
    ;

    fn reg32(self, offset: usize) -> (r: Option<MmioAddr<T>>)
        ensures
            r is Some == register_fits(self.first(), self.last(), offset, 4),
            r matches Some(addr) ==> addr@ == self.first() + offset,
    ;

    fn reg64(self, offset: usize) -> (r: Option<MmioAddr<T>>)
        ensures
            r is Some == register_fits(self.first(), self.last(), offset, 8),
            r matches Some(addr) ==> addr@ == self.first() + offset,
    ;

    fn reg16_aligned(self, offset: usize) -> (r: Option<MmioAddr<T>>)
        ensures
            r is Some == (register_fits(self.first(), self.last(), offset, 2) && (self.first()
                + offset) % 2 == 0),
            r matches Some(addr) ==> addr@ == self.first() + offset,
    ;

    fn reg32_aligned(self, offset: usize) -> (r: Option<MmioAddr<T>>)
        ensures
            r is Some == (register_fits(self.first(), self.last(), offset, 4) && (self.first()
                + offset) % 4 == 0),
            r matches Some(addr) ==> addr@ == self.first() + offset,
    ;

    fn reg64_aligned(self, offset: usize) -> (r: Option<MmioAddr<T>>)
        ensures
            r is Some == (register_fits(self.first(), self.last(), offset, 8) && (self.first()
                + offset) % 8 == 0),
            r matches Some(addr) ==> addr@ == self.first() + offset,
    ;
}

/// The widths of registers are powers of two.
proof fn lemma_register_widths()
    ensures
        crate::bits::is_pow2(2),
        crate::bits::is_pow2(4),
        crate::bits::is_pow2(8),
{
    assert(2u64 & 1u64 == 0 && 4u64 & 3u64 == 0 && 8u64 & 7u64 == 0) by (bit_vector);
}

impl<T: Unsigned> MmioRange<T> for AddrRange<IoAddr<T, MmioSpace>> {
    open spec fn first(self) -> usize {
        self.start@
    }

    open spec fn last(self) -> usize {
        self.end@
    }

    fn from_start_size(start: MmioAddr<T>, size: usize) -> (r: Option<Self>) {
        Self::try_from_start_size(start, size)
    }

    fn from_phys_range(range: PhysAddrRange) -> (r: Self) {
        AddrRange { start: IoAddr::from_phys(range.start), end: IoAddr::from_phys(range.end) }
    }

    fn from_phys_start_size(start: PhysAddr, size: usize) -> (r: Option<Self>) {
        <Self as MmioRange<T>>::from_start_size(IoAddr::from_phys(start), size)
    }

    fn to_phys_range(self) -> (r: PhysAddrRange) {
        AddrRange { start: self.start.as_phys(), end: self.end.as_phys() }
    }

    fn reg<const W: usize>(self, offset: usize) -> (r: Option<MmioAddr<T>>) {
        let addr: usize = match address_checked_add(self.start.as_usize(), offset) {
            Some(addr) => addr,
            None => return None,
        };
        let end: usize = match address_checked_add(addr, W) {
            Some(end) => end,
            None => return None,
        };
        if end > self.end.as_usize() {
            None
        } else {
            Some(IoAddr::from_usize(addr))
        }
    }

    fn reg8(self, offset: usize) -> (r: Option<MmioAddr<T>>) {
        self.reg::<1>(offset)
    }

    fn reg16(self, offset: usize) -> (r: Option<MmioAddr<T>>) {
        self.reg::<2>(offset)
    }

    fn reg32(self, offset: usize) -> (r: Option<MmioAddr<T>>) {
        self.reg::<4>(offset)
    }

    fn reg64(self, offset: usize) -> (r: Option<MmioAddr<T>>) {
        self.reg::<8>(offset)
    }

    fn reg16_aligned(self, offset: usize) -> (r: Option<MmioAddr<T>>) {
        proof {
            lemma_register_widths();
        }
        match self.reg16(offset) {
            Some(addr) => if addr.is_aligned(2) {
                Some(addr)
            } else {
                None
            },
            None => None,
        }
    }

    fn reg32_aligned(self, offset: usize) -> (r: Option<MmioAddr<T>>) {
        proof {
            lemma_register_widths();
        }
        match self.reg32(offset) {
            Some(addr) => if addr.is_aligned(4) {
                Some(addr)
            } else {
                None
            },
            None => None,
        }
    }

    fn reg64_aligned(self, offset: usize) -> (r: Option<MmioAddr<T>>) {
        proof {
            lemma_register_widths();
        }
        match self.reg64(offset) {
            Some(addr) => if addr.is_aligned(8) {
                Some(addr)
            } else {
                None
            },
            None => None,
        }
    }
}

/// A physical range that was made a window of MMIO addresses is the physical
/// range of that window, of the same size.
pub proof fn law_mmio_window_round_trip<T: Unsigned>(
    range: PhysAddrRange,
    window: AddrRange<IoAddr<T, MmioSpace>>,
)
    requires
        window.first() == range.start.0,
        window.last() == range.end.0,
    ensures
        (AddrRange { start: PhysAddr(window.first()), end: PhysAddr(window.last()) }) == range,
        window.spec_size() == range.spec_size(),
{
}

/// Port I/O address. x86 legacy, occasionally still in use for
/// firmware-era devices (COM serial, CF8/CFC configuration access,
/// PIT/PIC registers) on platforms that haven't migrated to MMIO.
///
/// Deliberately **not** an [`IoAddr`]: the port I/O address space is genuinely
/// 16-bit (the `in`/`out` instructions encode the port in `dx`, so `0x10000`
/// is not representable at the ISA level). Widening to `usize` would silently
/// admit invalid ports.
#[derive(Clone, Copy, Debug, PartialEq, Eq, PartialOrd, Ord, Hash, Structural)]
pub struct IoPort(pub u16);

impl From<u16> for IoPort {
    fn from(port: u16) -> (r: Self) {
        IoPort(port)
    }
}

impl FromSpecImpl<u16> for IoPort {
    open spec fn obeys_from_spec() -> bool {
        true
    }

    open spec fn from_spec(port: u16) -> Self {
        IoPort(port)
    }
}

impl From<IoPort> for u16 {
    fn from(port: IoPort) -> (r: Self) {
        port.0
    }
}

impl FromSpecImpl<IoPort> for u16 {
    open spec fn obeys_from_spec() -> bool {
        true
    }

    open spec fn from_spec(port: IoPort) -> Self {
        port.0
    }
}

impl IoPort {
    pub fn new(port: u16) -> (r: Self)
        ensures
            r == IoPort(port),
    {
        IoPort(port)
    }

    pub fn as_u16(self) -> (r: u16)
        ensures
            r == self.0,
    {
        self.0
    }

    pub fn checked_add(self, offset: u16) -> (r: Option<Self>)
        ensures
            r == (if self.0 + offset <= u16::MAX {
                Some(IoPort((self.0 + offset) as u16))
            } else {
                None
            }),
    {
        match self.0.checked_add(offset) {
            Some(port) => Some(IoPort(port)),
            None => None,
        }
    }

    pub fn checked_sub(self, offset: u16) -> (r: Option<Self>)
        ensures
            r == (if offset <= self.0 {
                Some(IoPort((self.0 - offset) as u16))
            } else {
                None
            }),
    {
        match self.0.checked_sub(offset) {
            Some(port) => Some(IoPort(port)),
            None => None,
        }
    }

    pub fn checked_mul(self, factor: u16) -> (r: Option<Self>)
        ensures
            r == (if self.0 * factor <= u16::MAX {
                Some(IoPort((self.0 * factor) as u16))
            } else {
                None
            }),
    {
        match self.0.checked_mul(factor) {
            Some(port) => Some(IoPort(port)),
            None => None,
        }
    }

    pub fn checked_div(self, divisor: u16) -> (r: Option<Self>)
        ensures
            r == (if divisor != 0 {
                Some(IoPort(self.0 / divisor))
            } else {
                None
            }),
    {
        match self.0.checked_div(divisor) {
            Some(port) => Some(IoPort(port)),
            None => None,
        }
    }
}

/// Range of port I/O addresses. `end` is exclusive, matching the convention
/// used by [`AddrRange`] for MMIO / IOVA.
#[derive(Clone, Copy, Debug, PartialEq, Eq, Hash, Structural)]
pub struct IoPortRange {
    pub start: IoPort,
    pub end: IoPort,
}

impl IoPortRange {
    pub fn new(start: IoPort, end: IoPort) -> (r: Self)
        ensures
            r == (IoPortRange { start, end }),
    {
        IoPortRange { start, end }
    }

    /// Build from a base and byte-count. Returns `None` when the range would
    /// overflow the 16-bit port I/O space.
    pub fn from_start_size(start: IoPort, size: u16) -> (r: Option<Self>)
        ensures
            r == (if start.0 + size <= u16::MAX {
                Some(IoPortRange { start, end: IoPort((start.0 + size) as u16) })
            } else {
                None
            }),
    {
        match start.checked_add(size) {
            Some(end) => Some(IoPortRange { start, end }),
            None => None,
        }
    }

    pub fn start(self) -> (r: IoPort)
        ensures
            r == self.start,
    {
        self.start
    }

    pub fn end(self) -> (r: IoPort)
        ensures
            r == self.end,
    {
        self.end
    }

    /// Number of ports covered by the range, `end - start`.
    pub fn size(self) -> (r: u16)
        requires
            self.start.0 <= self.end.0,
        ensures
            r == self.end.0 - self.start.0,
    {
        self.end.0 - self.start.0
    }

    pub fn is_empty(self) -> (r: bool)
        ensures
            r == (self.start.0 >= self.end.0),
    {
        self.start.0 >= self.end.0
    }

    /// Whether `port` falls inside the range, using the same `[start, end)`
    /// semantics as [`AddrRange::contains`].
    pub fn contains(self, port: IoPort) -> (r: bool)
        ensures
            r == (self.start.0 <= port.0 < self.end.0),
    {
        self.start.0 <= port.0 && port.0 < self.end.0
    }
}

/// A port range built from a base and a size covers `size` ports, the first of
/// which is the base, and holds exactly the ports from its base to its end.
pub proof fn law_port_range_covers_its_size(start: IoPort, size: u16, port: IoPort)
    requires
        start.0 + size <= u16::MAX,
    ensures
        ({
            let range = IoPortRange { start, end: IoPort((start.0 + size) as u16) };
            &&& range.end.0 - range.start.0 == size
            &&& (range.start.0 <= port.0 < range.end.0) == (0 <= port.0 - start.0 < size)
        }),
{
}

/// The size of a range is how far its end lies behind its start, around the top
/// of the address space where the end is in front of the start.
pub proof fn law_size_leads_from_start_to_end<A: Address>(range: AddrRange<A>)
    ensures
        0 <= range.spec_size() <= usize::MAX,
        range.start.value() <= range.end.value() ==> range.start.value() + range.spec_size()
            == range.end.value(),
        range.start.value() > range.end.value() ==> range.start.value() + range.spec_size()
            == range.end.value() + usize::MAX + 1,
{
}

} // verus!
