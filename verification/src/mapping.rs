//! Leaf mappings and the shapes of their physical backing.

use vstd::prelude::*;
use vstd::std_specs::convert::FromSpecImpl;

use crate::addr::{AddrRange, Address, PhysAddr, PhysAddrRange};
use crate::memory::{PageSize, PageTableEntry, PagingError};

verus! {

/// A resolved leaf mapping.
///
/// `range` is the exact virtual/IOVA range covered by the leaf; its
/// length determines the leaf size. `paddr` is the aligned physical base
/// the leaf points at.
#[derive(Clone, Copy, Debug, PartialEq, Eq)]
pub struct Mapping<Entry, V> where Entry: PageTableEntry, V: Address {
    pub range: AddrRange<V>,
    pub paddr: PhysAddr,
    pub flags: Entry::Flags,
}

impl<Entry, V> Mapping<Entry, V> where Entry: PageTableEntry, V: Address {
    pub fn new(range: AddrRange<V>, paddr: PhysAddr, flags: Entry::Flags) -> (r: Self)
        ensures
            r.range == range,
            r.paddr == paddr,
            r.flags == flags,
    {
        Mapping { range, paddr, flags }
    }

    /// The leaf size, where the range has the length of one.
    pub fn size(&self) -> (r: Option<PageSize>)
        ensures
            match r {
                Some(size) => size.spec_bytes() == self.range.spec_size(),
                None => forall|size: PageSize|
                    (#[trigger] size.spec_bytes()) != self.range.spec_size(),
            },
    {
        PageSize::from_bytes(self.range.size())
    }
}

/// Physical backing shape of a mapping request.
///
/// `Contiguous` carries one physical extent. `Scattered` carries ordered
/// physical extents that back one virtually-contiguous range.
#[derive(Clone, Copy, Debug, PartialEq, Eq)]
pub enum MapBacking<'a> {
    Contiguous(PhysAddrRange),
    Scattered(&'a [PhysAddrRange]),
}

impl<'a> MapBacking<'a> {
    pub fn contiguous(range: PhysAddrRange) -> (r: Self)
        ensures
            r == MapBacking::Contiguous(range),
    {
        MapBacking::Contiguous(range)
    }

    /// One extent of `size` bytes, which has to end inside the address space.
    pub fn contiguous_from_start_size(start: PhysAddr, size: usize) -> (r: Self)
        requires
            start.0 + size <= usize::MAX,
        ensures
            r == MapBacking::Contiguous(
                AddrRange { start, end: PhysAddr((start.0 + size) as usize) },
            ),
    {
        let range = PhysAddrRange::from_start_size(start, size);
        assert(range.end == PhysAddr((start.0 + size) as usize));
        MapBacking::Contiguous(range)
    }

    pub fn scattered(ranges: &'a [PhysAddrRange]) -> (r: Self)
        ensures
            r == MapBacking::Scattered(ranges),
    {
        MapBacking::Scattered(ranges)
    }
}

impl<'a> From<PhysAddrRange> for MapBacking<'a> {
    fn from(range: PhysAddrRange) -> (r: Self) {
        MapBacking::Contiguous(range)
    }
}

impl<'a> FromSpecImpl<PhysAddrRange> for MapBacking<'a> {
    open spec fn obeys_from_spec() -> bool {
        true
    }

    open spec fn from_spec(range: PhysAddrRange) -> Self {
        MapBacking::Contiguous(range)
    }
}

/// Converts ergonomic backing expressions into a [`MapBacking`].
///
/// A bare [`PhysAddr`] is interpreted as one contiguous range with the
/// same byte length as the virtual range being mapped.
pub trait IntoMapBacking<'a>: Sized {
    /// Whether the backing of a range of `virtual_size` bytes lies inside the
    /// address space.
    spec fn has_backing(self, virtual_size: usize) -> bool;

    /// Whether `backing` is the backing that the value stands for.
    spec fn is_backing(self, virtual_size: usize, backing: MapBacking<'a>) -> bool;

    fn into_map_backing(self, virtual_size: usize) -> (r: Result<MapBacking<'a>, PagingError>)
        requires
            self.has_backing(virtual_size),
        ensures
            r matches Ok(backing) && self.is_backing(virtual_size, backing),
    ;
}

impl<'a> IntoMapBacking<'a> for MapBacking<'a> {
    open spec fn has_backing(self, virtual_size: usize) -> bool {
        true
    }

    open spec fn is_backing(self, virtual_size: usize, backing: MapBacking<'a>) -> bool {
        backing == self
    }

    fn into_map_backing(self, _virtual_size: usize) -> (r: Result<MapBacking<'a>, PagingError>) {
        Ok(self)
    }
}

impl<'a> IntoMapBacking<'a> for PhysAddr {
    open spec fn has_backing(self, virtual_size: usize) -> bool {
        self.0 + virtual_size <= usize::MAX
    }

    open spec fn is_backing(self, virtual_size: usize, backing: MapBacking<'a>) -> bool {
        backing == MapBacking::Contiguous(
            AddrRange { start: self, end: PhysAddr((self.0 + virtual_size) as usize) },
        )
    }

    fn into_map_backing(self, virtual_size: usize) -> (r: Result<MapBacking<'a>, PagingError>) {
        Ok(MapBacking::contiguous_from_start_size(self, virtual_size))
    }
}

impl<'a> IntoMapBacking<'a> for PhysAddrRange {
    open spec fn has_backing(self, virtual_size: usize) -> bool {
        true
    }

    open spec fn is_backing(self, virtual_size: usize, backing: MapBacking<'a>) -> bool {
        backing == MapBacking::Contiguous(self)
    }

    fn into_map_backing(self, _virtual_size: usize) -> (r: Result<MapBacking<'a>, PagingError>) {
        Ok(MapBacking::Contiguous(self))
    }
}

impl<'a> IntoMapBacking<'a> for &'a [PhysAddrRange] {
    open spec fn has_backing(self, virtual_size: usize) -> bool {
        true
    }

    open spec fn is_backing(self, virtual_size: usize, backing: MapBacking<'a>) -> bool {
        backing == MapBacking::Scattered(self)
    }

    fn into_map_backing(self, _virtual_size: usize) -> (r: Result<MapBacking<'a>, PagingError>) {
        Ok(MapBacking::Scattered(self))
    }
}

impl<'a, const N: usize> IntoMapBacking<'a> for &'a [PhysAddrRange; N] {
    open spec fn has_backing(self, virtual_size: usize) -> bool {
        true
    }

    open spec fn is_backing(self, virtual_size: usize, backing: MapBacking<'a>) -> bool {
        backing matches MapBacking::Scattered(ranges) && ranges@ == self@
    }

    fn into_map_backing(self, _virtual_size: usize) -> (r: Result<MapBacking<'a>, PagingError>) {
        Ok(MapBacking::Scattered(vstd::array::array_as_slice(self)))
    }
}

/// `heapless::Vec`: a list of at most `N` items.
#[verifier::external_type_specification]
#[verifier::external_body]
#[verifier::reject_recursive_types(T)]
pub struct ExHeaplessVec<T, const N: usize>(heapless::Vec<T, N>);

/// `heapless::Vec::as_slice`: the items of the list, of which there are at most
/// `N`. A contract says which items by relating a slice to this function's
/// result for the list.
pub assume_specification<T, const N: usize>[ heapless::Vec::<T, N>::as_slice ](
    list: &heapless::Vec<T, N>,
) -> (r: &[T])
    ensures
        r@.len() <= N,
;

/// What a function returns for an argument.
fn result_of<A, R, F: Fn(A) -> R>(f: F, argument: A) -> (r: R)
    requires
        call_requires(f, (argument,)),
    ensures
        call_ensures(f, (argument,), r),
{
    f(argument)
}

impl<'a, const N: usize> IntoMapBacking<'a> for &'a heapless::Vec<PhysAddrRange, N> {
    open spec fn has_backing(self, virtual_size: usize) -> bool {
        true
    }

    open spec fn is_backing(self, virtual_size: usize, backing: MapBacking<'a>) -> bool {
        backing matches MapBacking::Scattered(ranges) && ranges@.len() <= N && call_ensures(
            heapless::Vec::<PhysAddrRange, N>::as_slice,
            (self,),
            ranges,
        )
    }

    fn into_map_backing(self, _virtual_size: usize) -> (r: Result<MapBacking<'a>, PagingError>) {
        Ok(MapBacking::Scattered(result_of(heapless::Vec::<PhysAddrRange, N>::as_slice, self)))
    }
}

/// Physical contiguity contract for a mapping request.
#[derive(Clone, Copy, Debug, PartialEq, Eq, Hash, Structural)]
pub enum MappingContiguity {
    /// Backing must be one contiguous physical range. The walker may use
    /// the largest legal leaf size at each aligned span.
    Contiguous,
    /// Backing may be multiple physical ranges. Every mapped leaf uses
    /// this granule exactly.
    Scattered(PageSize),
}

impl Default for MappingContiguity {
    fn default() -> (r: Self)
        ensures
            r == MappingContiguity::Contiguous,
    {
        MappingContiguity::Contiguous
    }
}

/// Mapping-level flags: hardware leaf flags plus backing-shape policy.
#[derive(Clone, Copy, Debug, PartialEq, Eq, Hash)]
pub struct MappingFlags<F> {
    pub leaf: F,
    pub contiguity: MappingContiguity,
}

impl<F> MappingFlags<F> {
    pub fn new(leaf: F) -> (r: Self)
        ensures
            r == (MappingFlags { leaf, contiguity: MappingContiguity::Contiguous }),
    {
        MappingFlags { leaf, contiguity: MappingContiguity::Contiguous }
    }

    pub fn contiguous(leaf: F) -> (r: Self)
        ensures
            r == (MappingFlags { leaf, contiguity: MappingContiguity::Contiguous }),
    {
        Self::new(leaf)
    }

    pub fn scattered(leaf: F, granule: PageSize) -> (r: Self)
        ensures
            r == (MappingFlags { leaf, contiguity: MappingContiguity::Scattered(granule) }),
    {
        MappingFlags { leaf, contiguity: MappingContiguity::Scattered(granule) }
    }

    pub fn with_contiguity(self, contiguity: MappingContiguity) -> (r: Self)
        ensures
            r == (MappingFlags { leaf: self.leaf, contiguity }),
    {
        MappingFlags { leaf: self.leaf, contiguity }
    }

    pub fn leaf(&self) -> (r: F) where F: Copy
        ensures
            r == self.leaf,
    {
        self.leaf
    }

    pub fn contiguity(&self) -> (r: MappingContiguity)
        ensures
            r == self.contiguity,
    {
        self.contiguity
    }
}

impl<F> From<F> for MappingFlags<F> {
    fn from(leaf: F) -> (r: Self) {
        MappingFlags { leaf, contiguity: MappingContiguity::Contiguous }
    }
}

impl<F> FromSpecImpl<F> for MappingFlags<F> {
    open spec fn obeys_from_spec() -> bool {
        true
    }

    open spec fn from_spec(leaf: F) -> Self {
        MappingFlags { leaf, contiguity: MappingContiguity::Contiguous }
    }
}

/// An address backs a range exactly where the range's bytes behind it end inside
/// the address space, and then with those bytes and no others; a range backs
/// itself.
pub proof fn law_address_backs_the_bytes_behind_it<'a>(
    start: PhysAddr,
    range: PhysAddrRange,
    size: usize,
    backing: MapBacking<'a>,
)
    ensures
        start.has_backing(size) <==> start.0 + size <= usize::MAX,
        start.has_backing(size) && start.is_backing(size, backing) ==> (backing
            matches MapBacking::Contiguous(bytes) && bytes.start == start && bytes.end.0 == start.0
            + size),
        range.has_backing(size),
        range.is_backing(size, backing) <==> backing == MapBacking::<'a>::Contiguous(range),
{
}

} // verus!
