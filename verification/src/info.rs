//! Descriptors of discovered remapping units.

use vstd::prelude::*;

use crate::addr::{MmioAddrRange, PhysAddrRange};
use crate::caps::{CapabilityFlags, TranslationStage};
use crate::error::Error;

verus! {

/// IOMMU implementation family.
#[derive(Clone, Copy, Debug, PartialEq, Eq, Hash, Structural)]
pub enum ControllerKind {
    IntelVtd,
    AmdVi,
    ArmSmmuV2,
    ArmSmmuV3,
    RiscvIommu,
    Unknown(u16),
}

/// Immutable descriptor for one discovered IOMMU unit.
#[derive(Clone, Copy, Debug, PartialEq, Eq)]
pub struct IommuInfo {
    pub kind: ControllerKind,
    pub segment: Option<u16>,
    pub mmio: MmioAddrRange,
    pub caps: CapabilityFlags,
    pub stage: TranslationStage,
}

impl IommuInfo {
    pub fn new(
        kind: ControllerKind,
        segment: Option<u16>,
        mmio: MmioAddrRange,
        caps: CapabilityFlags,
        stage: TranslationStage,
    ) -> (r: Self)
        ensures
            r == (IommuInfo { kind, segment, mmio, caps, stage }),
    {
        IommuInfo { kind, segment, mmio, caps, stage }
    }

    pub fn kind(self) -> (r: ControllerKind)
        ensures
            r == self.kind,
    {
        self.kind
    }

    pub fn segment(self) -> (r: Option<u16>)
        ensures
            r == self.segment,
    {
        self.segment
    }

    pub fn mmio(self) -> (r: MmioAddrRange)
        ensures
            r == self.mmio,
    {
        self.mmio
    }

    pub fn caps(self) -> (r: CapabilityFlags)
        ensures
            r == self.caps,
    {
        self.caps
    }

    pub fn stage(self) -> (r: TranslationStage)
        ensures
            r == self.stage,
    {
        self.stage
    }
}

/// Identity of one translation domain: a number within `MASK` and the
/// generation of its use.
#[derive(Clone, Copy, Debug, PartialEq, Eq, Hash)]
pub struct IoDomain<const MASK: u32> {
    id: u32,
    generation: u32,
}

impl<const MASK: u32> IoDomain<MASK> {
    pub closed spec fn spec_id(self) -> u32 {
        self.id
    }

    pub closed spec fn spec_generation(self) -> u32 {
        self.generation
    }

    /// The number is within the mask.
    pub open spec fn wf(self) -> bool {
        self.spec_id() & MASK == self.spec_id()
    }

    /// The domain with the given number, which has to be within the mask.
    pub fn new(id: u32, generation: u32) -> (r: Result<Self, Error>)
        ensures
            r == (if id & MASK == id {
                Ok(Self::of(id, generation))
            } else {
                Err(Error::InvalidAddressSpace)
            }),
            r matches Ok(domain) ==> domain.wf() && domain.spec_id() == id
                && domain.spec_generation() == generation,
    {
        if id & MASK != id {
            return Err(Error::InvalidAddressSpace);
        }
        Ok(IoDomain { id, generation })
    }

    /// The domain with the given number and generation.
    pub closed spec fn of(id: u32, generation: u32) -> Self {
        IoDomain { id, generation }
    }

    /// The first generation of the domain with the given number.
    pub fn from_asid(id: u32) -> (r: Result<Self, Error>)
        ensures
            r == (if id & MASK == id {
                Ok(Self::of(id, 0))
            } else {
                Err(Error::InvalidAddressSpace)
            }),
            r matches Ok(domain) ==> domain.wf() && domain.spec_id() == id
                && domain.spec_generation() == 0,
    {
        Self::new(id, 0)
    }

    /// The domain with a number that is known to be within the mask.
    pub fn from_parts_trusted(id: u32, generation: u32) -> (r: Self)
        requires
            id & MASK == id,
        ensures
            r == Self::of(id, generation),
            r.wf(),
            r.spec_id() == id,
            r.spec_generation() == generation,
    {
        IoDomain { id, generation }
    }

    /// Whether the two are the same generation of the same domain.
    pub fn is_same(self, other: Self) -> (r: bool)
        ensures
            r == (self == other),
    {
        self.id == other.id && self.generation == other.generation
    }

    pub fn id(self) -> (r: u32)
        ensures
            r == self.spec_id(),
    {
        self.id
    }

    pub fn generation(self) -> (r: u32)
        ensures
            r == self.spec_generation(),
    {
        self.generation
    }
}

/// Firmware-declared DMA reservation that the OS must preserve.
#[derive(Clone, Copy, Debug, PartialEq, Eq)]
pub struct ReservedRegion<Client> {
    pub range: PhysAddrRange,
    pub client: Option<Client>,
}

impl<Client> ReservedRegion<Client> {
    pub fn new(range: PhysAddrRange, client: Option<Client>) -> (r: Self)
        ensures
            r == (ReservedRegion { range, client }),
    {
        ReservedRegion { range, client }
    }

    pub fn range(self) -> (r: PhysAddrRange)
        ensures
            r == self.range,
    {
        self.range
    }

    pub fn client(self) -> (r: Option<Client>) where Client: Copy
        ensures
            r == self.client,
    {
        self.client
    }
}

} // verus!
