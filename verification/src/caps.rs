//! Access, binding and capability vocabulary of remapping units.

use core::ops::{BitAnd, BitAndAssign, BitOr, BitOrAssign};
use vstd::prelude::*;
use vstd::std_specs::ops::{BitAndSpecImpl, BitOrSpecImpl};

use crate::memory::{AccessFlags, MemoryAttributes};

verus! {

/// Target-neutral DMA access permissions.
///
/// This intentionally aliases the permissions used by page-table entries so
/// CPU and IOMMU mappings share the same mechanical access vocabulary.
pub type DmaAccess = AccessFlags;

/// Effective attributes for one DMA-visible mapping.
#[derive(Clone, Copy, Debug, PartialEq, Eq, Hash, Structural)]
pub struct DmaAttrs {
    pub access: DmaAccess,
    pub memory: MemoryAttributes,
}

impl DmaAttrs {
    pub fn new(access: DmaAccess, memory: MemoryAttributes) -> (r: Self)
        ensures
            r == (DmaAttrs { access, memory }),
    {
        DmaAttrs { access, memory }
    }

    pub fn access(self) -> (r: DmaAccess)
        ensures
            r == self.access,
    {
        self.access
    }

    pub fn memory(self) -> (r: MemoryAttributes)
        ensures
            r == self.memory,
    {
        self.memory
    }
}

/// Translation-stage summary for one IOMMU address space.
#[derive(Clone, Copy, Debug, PartialEq, Eq, PartialOrd, Ord, Hash, Structural)]
pub enum TranslationStage {
    Stage1,
    Stage2,
    Nested,
}

/// Client-local binding slot.
#[derive(Clone, Copy, Debug, PartialEq, Eq, Hash, Structural)]
pub enum BindingSelector {
    Default,
    AddrSpace(u32),
    Substream(u32),
}

impl BindingSelector {
    pub fn from_addr_space(id: u32) -> (r: Self)
        ensures
            r == BindingSelector::AddrSpace(id),
    {
        BindingSelector::AddrSpace(id)
    }

    pub fn from_substream(id: u32) -> (r: Self)
        ensures
            r == BindingSelector::Substream(id),
    {
        BindingSelector::Substream(id)
    }
}

impl Default for BindingSelector {
    fn default() -> (r: Self)
        ensures
            r == BindingSelector::Default,
    {
        BindingSelector::Default
    }
}

/// Translation target bound to one client selector.
#[derive(Clone, Copy, Debug, PartialEq, Eq)]
pub enum BindingTarget<Domain> {
    Abort,
    PassThrough,
    Domain(Domain),
}

/// One client binding request.
#[derive(Clone, Copy, Debug, PartialEq, Eq)]
pub struct Binding<Client, Domain> {
    pub client: Client,
    pub selector: BindingSelector,
    pub target: BindingTarget<Domain>,
}

impl<Client, Domain> Binding<Client, Domain> {
    pub fn new(client: Client, selector: BindingSelector, target: BindingTarget<Domain>) -> (r:
        Self)
        ensures
            r == (Binding { client, selector, target }),
    {
        Binding { client, selector, target }
    }

    pub fn client(self) -> (r: Client) where Client: Copy
        ensures
            r == self.client,
    {
        self.client
    }

    pub fn selector(self) -> (r: BindingSelector)
        ensures
            r == self.selector,
    {
        self.selector
    }

    pub fn target(self) -> (r: BindingTarget<Domain>) where Domain: Copy
        ensures
            r == self.target,
    {
        self.target
    }
}

/// Coarse feature flags common to modern DMA-remapping units.
#[derive(Clone, Copy, Debug, PartialEq, Eq, Hash, Structural)]
pub struct CapabilityFlags(pub u64);

impl CapabilityFlags {
    pub fn translation() -> (r: Self)
        ensures
            r == CapabilityFlags(0x01),
    {
        CapabilityFlags(0x01)
    }

    pub fn pasid() -> (r: Self)
        ensures
            r == CapabilityFlags(0x02),
    {
        CapabilityFlags(0x02)
    }

    pub fn ats() -> (r: Self)
        ensures
            r == CapabilityFlags(0x04),
    {
        CapabilityFlags(0x04)
    }

    pub fn device_tlb() -> (r: Self)
        ensures
            r == CapabilityFlags(0x08),
    {
        CapabilityFlags(0x08)
    }

    pub fn interrupt_remapping() -> (r: Self)
        ensures
            r == CapabilityFlags(0x10),
    {
        CapabilityFlags(0x10)
    }

    pub fn nested_translation() -> (r: Self)
        ensures
            r == CapabilityFlags(0x20),
    {
        CapabilityFlags(0x20)
    }

    pub fn page_requests() -> (r: Self)
        ensures
            r == CapabilityFlags(0x40),
    {
        CapabilityFlags(0x40)
    }

    pub fn dirty_tracking() -> (r: Self)
        ensures
            r == CapabilityFlags(0x80),
    {
        CapabilityFlags(0x80)
    }

    pub fn empty() -> (r: Self)
        ensures
            r == CapabilityFlags(0),
    {
        CapabilityFlags(0)
    }

    pub fn bits(self) -> (r: u64)
        ensures
            r == self.0,
    {
        self.0
    }

    /// All features of `other` are among these.
    pub open spec fn has(self, other: Self) -> bool {
        self.0 & other.0 == other.0
    }

    pub fn contains(self, other: Self) -> (r: bool)
        ensures
            r == self.has(other),
    {
        (self.0 & other.0) == other.0
    }
}

impl Default for CapabilityFlags {
    fn default() -> (r: Self)
        ensures
            r == CapabilityFlags(0),
    {
        CapabilityFlags(0)
    }
}

impl BitOr<CapabilityFlags> for CapabilityFlags {
    type Output = CapabilityFlags;

    fn bitor(self, rhs: CapabilityFlags) -> (r: CapabilityFlags) {
        CapabilityFlags(self.0 | rhs.0)
    }
}

impl BitOrSpecImpl<CapabilityFlags> for CapabilityFlags {
    open spec fn obeys_bitor_spec() -> bool {
        true
    }

    open spec fn bitor_req(self, rhs: CapabilityFlags) -> bool {
        true
    }

    open spec fn bitor_spec(self, rhs: CapabilityFlags) -> CapabilityFlags {
        CapabilityFlags(self.0 | rhs.0)
    }
}

impl BitOrAssign<CapabilityFlags> for CapabilityFlags {
    fn bitor_assign(&mut self, rhs: CapabilityFlags)
        ensures
            *final(self) == CapabilityFlags(old(self).0 | rhs.0),
    {
        self.0 = self.0 | rhs.0;
    }
}

impl BitAnd<CapabilityFlags> for CapabilityFlags {
    type Output = CapabilityFlags;

    fn bitand(self, rhs: CapabilityFlags) -> (r: CapabilityFlags) {
        CapabilityFlags(self.0 & rhs.0)
    }
}

impl BitAndSpecImpl<CapabilityFlags> for CapabilityFlags {
    open spec fn obeys_bitand_spec() -> bool {
        true
    }

    open spec fn bitand_req(self, rhs: CapabilityFlags) -> bool {
        true
    }

    open spec fn bitand_spec(self, rhs: CapabilityFlags) -> CapabilityFlags {
        CapabilityFlags(self.0 & rhs.0)
    }
}

impl BitAndAssign<CapabilityFlags> for CapabilityFlags {
    fn bitand_assign(&mut self, rhs: CapabilityFlags)
        ensures
            *final(self) == CapabilityFlags(old(self).0 & rhs.0),
    {
        self.0 = self.0 & rhs.0;
    }
}

/// Joining feature sets adds exactly the features of both: a single feature is
/// in the union where it is in one of them.
pub proof fn law_union_of_capabilities(a: CapabilityFlags, b: CapabilityFlags, index: u64)
    requires
        index < 64,
    ensures
        CapabilityFlags(a.0 | b.0).has(CapabilityFlags(1u64 << index)) == (a.has(
            CapabilityFlags(1u64 << index),
        ) || b.has(CapabilityFlags(1u64 << index))),
        CapabilityFlags(a.0 & b.0).has(CapabilityFlags(1u64 << index)) == (a.has(
            CapabilityFlags(1u64 << index),
        ) && b.has(CapabilityFlags(1u64 << index))),
{
    let (x, y) = (a.0, b.0);
    assert(((x | y) & (1u64 << index) == (1u64 << index)) == ((x & (1u64 << index) == (1u64
        << index)) || (y & (1u64 << index) == (1u64 << index))) && ((x & y) & (1u64 << index) == (
    1u64 << index)) == ((x & (1u64 << index) == (1u64 << index)) && (y & (1u64 << index) == (1u64
        << index)))) by (bit_vector)
        requires
            index < 64,
    ;
}

} // verus!
