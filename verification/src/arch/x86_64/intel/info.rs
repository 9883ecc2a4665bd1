//! Intel VT-d controller and domain descriptors.

use vstd::prelude::*;
use vstd::std_specs::convert::FromSpecImpl;

use super::caps::{VtdCapability, VtdExtendedCapability};
use super::paging::VtdSecondLevelAddressWidth;
use crate::addr::{MmioAddrRange, PhysAddr};
use crate::caps::TranslationStage;
use crate::info::{ControllerKind, IoDomain, IommuInfo};
use crate::memory::{PageSize, PagingError};

verus! {

pub const VTD_DOMAIN_MASK: u32 = 0x0000_ffff;

pub type VtdIoDomain = IoDomain<VTD_DOMAIN_MASK>;

/// Conventional non-zero domain id for simple second-level setups.
pub fn vtd_default_domain() -> (r: VtdIoDomain)
    ensures
        r == VtdIoDomain::of(1, 0),
        r.wf(),
        r.spec_id() == 1,
        r.spec_generation() == 0,
{
    assert(1u32 & 0x0000_ffff == 1) by (bit_vector);
    VtdIoDomain::from_parts_trusted(1, 0)
}

/// VT-d version register split into major/minor nibbles.
#[derive(Clone, Copy, Debug, PartialEq, Eq, Hash, Structural)]
pub struct VtdVersion(pub u32);

impl VtdVersion {
    pub fn from_bits(bits: u32) -> (r: Self)
        ensures
            r == VtdVersion(bits),
    {
        VtdVersion(bits)
    }

    pub fn bits(self) -> (r: u32)
        ensures
            r == self.0,
    {
        self.0
    }

    /// Bits `[7:4]`.
    pub fn major(self) -> (r: u8)
        ensures
            r == crate::bits::bit_field(self.0 as u64, 7, 4),
    {
        crate::bits::field(self.0 as u64, 7, 4) as u8
    }

    /// Bits `[3:0]`.
    pub fn minor(self) -> (r: u8)
        ensures
            r == crate::bits::bit_field(self.0 as u64, 3, 0),
    {
        crate::bits::field(self.0 as u64, 3, 0) as u8
    }
}

impl Default for VtdVersion {
    fn default() -> (r: Self)
        ensures
            r == VtdVersion(0),
    {
        VtdVersion(0)
    }
}

/// One concrete VT-d translation domain.
#[derive(Clone, Copy, Debug, PartialEq, Eq)]
pub struct VtdDomain {
    pub id: VtdIoDomain,
    pub root: PhysAddr,
    pub width: VtdSecondLevelAddressWidth,
    pub stage: TranslationStage,
}

impl VtdDomain {
    pub fn new(
        id: VtdIoDomain,
        root: PhysAddr,
        width: VtdSecondLevelAddressWidth,
        stage: TranslationStage,
    ) -> (r: Self)
        ensures
            r == (VtdDomain { id, root, width, stage }),
    {
        VtdDomain { id, root, width, stage }
    }

    pub fn id(self) -> (r: VtdIoDomain)
        ensures
            r == self.id,
    {
        self.id
    }

    pub fn root(self) -> (r: PhysAddr)
        ensures
            r == self.root,
    {
        self.root
    }

    pub fn width(self) -> (r: VtdSecondLevelAddressWidth)
        ensures
            r == self.width,
    {
        self.width
    }

    pub fn stage(self) -> (r: TranslationStage)
        ensures
            r == self.stage,
    {
        self.stage
    }

    /// Whether the two are one domain, with one table.
    pub fn is_same(self, other: Self) -> (r: bool)
        ensures
            r == (self == other),
    {
        self.id.is_same(other.id) && self.root == other.root && self.width == other.width
            && self.stage == other.stage
    }

    pub fn controls(self) -> (r: VtdDomainControls)
        ensures
            r == (VtdDomainControls { id: self.id, width: self.width }),
    {
        VtdDomainControls::new(self.id, self.width)
    }
}

impl From<VtdDomainToken> for VtdDomain {
    fn from(value: VtdDomainToken) -> (r: Self) {
        value.domain()
    }
}

impl FromSpecImpl<VtdDomainToken> for VtdDomain {
    open spec fn obeys_from_spec() -> bool {
        true
    }

    open spec fn from_spec(value: VtdDomainToken) -> Self {
        value.spec_domain()
    }
}

/// VT-d second-level address-space installation controls.
#[derive(Clone, Copy, Debug, PartialEq, Eq, Hash)]
pub struct VtdDomainControls {
    pub id: VtdIoDomain,
    pub width: VtdSecondLevelAddressWidth,
}

impl VtdDomainControls {
    pub fn new(id: VtdIoDomain, width: VtdSecondLevelAddressWidth) -> (r: Self)
        ensures
            r == (VtdDomainControls { id, width }),
    {
        VtdDomainControls { id, width }
    }

    pub fn id(self) -> (r: VtdIoDomain)
        ensures
            r == self.id,
    {
        self.id
    }

    pub fn width(self) -> (r: VtdSecondLevelAddressWidth)
        ensures
            r == self.width,
    {
        self.width
    }

    pub fn stage(self) -> (r: TranslationStage)
        ensures
            r == TranslationStage::Stage2,
    {
        TranslationStage::Stage2
    }
}

/// Installed VT-d second-level address-space token.
#[derive(Clone, Copy, Debug, PartialEq, Eq)]
pub struct VtdDomainToken {
    pub root: PhysAddr,
    pub controls: VtdDomainControls,
}

impl VtdDomainToken {
    pub fn new(root: PhysAddr, controls: VtdDomainControls) -> (r: Self)
        ensures
            r == (VtdDomainToken { root, controls }),
    {
        VtdDomainToken { root, controls }
    }

    pub fn root(self) -> (r: PhysAddr)
        ensures
            r == self.root,
    {
        self.root
    }

    pub fn controls(self) -> (r: VtdDomainControls)
        ensures
            r == self.controls,
    {
        self.controls
    }

    pub fn id(self) -> (r: VtdIoDomain)
        ensures
            r == self.controls.id,
    {
        self.controls.id()
    }

    pub fn width(self) -> (r: VtdSecondLevelAddressWidth)
        ensures
            r == self.controls.width,
    {
        self.controls.width()
    }

    pub fn stage(self) -> (r: TranslationStage)
        ensures
            r == TranslationStage::Stage2,
    {
        self.controls.stage()
    }

    /// The second-stage domain that the token stands for.
    pub open spec fn spec_domain(self) -> VtdDomain {
        VtdDomain {
            id: self.controls.id,
            root: self.root,
            width: self.controls.width,
            stage: TranslationStage::Stage2,
        }
    }

    pub fn domain(self) -> (r: VtdDomain)
        ensures
            r == self.spec_domain(),
    {
        VtdDomain::new(self.id(), self.root, self.width(), self.stage())
    }
}

/// Stateless VT-d domain installer.
///
/// This encodes the second-level page-table root into a domain token. Hardware
/// activation is controller-specific because VT-d still has to publish that
/// token through root/context tables for concrete requesters.
#[derive(Clone, Copy, Debug)]
pub struct VtdDomainActivation;

impl VtdDomainActivation {
    /// The token of a root that is aligned to a page.
    pub fn install(&self, root: PhysAddr, controls: VtdDomainControls) -> (r: Result<
        VtdDomainToken,
        PagingError,
    >)
        ensures
            r == (if root.0 % 0x1000 == 0 {
                Ok(VtdDomainToken { root, controls })
            } else {
                Err(PagingError::NotAligned)
            }),
    {
        proof {
            crate::bits::lemma_page_is_pow2();
        }
        if !root.is_aligned(PageSize::Size4K.bytes()) {
            return Err(PagingError::NotAligned);
        }
        Ok(VtdDomainToken::new(root, controls))
    }

    /// A domain is not activated on its own.
    pub fn activate(&self, _token: VtdDomainToken) -> (r: Result<(), PagingError>)
        ensures
            r == Err::<(), PagingError>(PagingError::InvalidMappingShape),
    {
        Err(PagingError::InvalidMappingShape)
    }
}

impl Default for VtdDomainActivation {
    fn default() -> (r: Self) {
        VtdDomainActivation
    }
}

/// Immutable information discovered for one Intel VT-d remapping unit.
#[derive(Clone, Copy, Debug, PartialEq, Eq)]
pub struct VtdInfo {
    pub base: IommuInfo,
    pub version: VtdVersion,
    pub host_address_width: Option<u8>,
    pub cap: VtdCapability,
    pub ecap: VtdExtendedCapability,
    pub explicit_device_scopes: bool,
}

impl VtdInfo {
    pub fn new(
        base: IommuInfo,
        version: VtdVersion,
        host_address_width: Option<u8>,
        cap: VtdCapability,
        ecap: VtdExtendedCapability,
        explicit_device_scopes: bool,
    ) -> (r: Self)
        ensures
            r == (VtdInfo {
                base,
                version,
                host_address_width,
                cap,
                ecap,
                explicit_device_scopes,
            }),
    {
        VtdInfo { base, version, host_address_width, cap, ecap, explicit_device_scopes }
    }

    /// The unit that the given register values describe: a second-stage unit
    /// with the features of its extended capability register.
    pub fn from_registers(
        segment: Option<u16>,
        mmio: MmioAddrRange,
        version: u32,
        host_address_width: Option<u8>,
        cap: u64,
        ecap: u64,
        explicit_device_scopes: bool,
    ) -> (r: Self)
        ensures
            r == (VtdInfo {
                base: IommuInfo {
                    kind: ControllerKind::IntelVtd,
                    segment,
                    mmio,
                    caps: VtdExtendedCapability(ecap).spec_capability_flags(),
                    stage: TranslationStage::Stage2,
                },
                version: VtdVersion(version),
                host_address_width,
                cap: VtdCapability(cap),
                ecap: VtdExtendedCapability(ecap),
                explicit_device_scopes,
            }),
    {
        let cap = VtdCapability::from_bits(cap);
        let ecap = VtdExtendedCapability::from_bits(ecap);
        let base = IommuInfo::new(
            ControllerKind::IntelVtd,
            segment,
            mmio,
            ecap.capability_flags(),
            TranslationStage::Stage2,
        );
        VtdInfo::new(
            base,
            VtdVersion::from_bits(version),
            host_address_width,
            cap,
            ecap,
            explicit_device_scopes,
        )
    }

    pub fn base(self) -> (r: IommuInfo)
        ensures
            r == self.base,
    {
        self.base
    }

    pub fn version(self) -> (r: VtdVersion)
        ensures
            r == self.version,
    {
        self.version
    }

    pub fn host_address_width(self) -> (r: Option<u8>)
        ensures
            r == self.host_address_width,
    {
        self.host_address_width
    }

    pub fn cap(self) -> (r: VtdCapability)
        ensures
            r == self.cap,
    {
        self.cap
    }

    pub fn ecap(self) -> (r: VtdExtendedCapability)
        ensures
            r == self.ecap,
    {
        self.ecap
    }

    pub fn explicit_device_scopes(self) -> (r: bool)
        ensures
            r == self.explicit_device_scopes,
    {
        self.explicit_device_scopes
    }

    pub fn best_second_level_width(self) -> (r: Option<VtdSecondLevelAddressWidth>)
        ensures
            r == self.cap.spec_best_width(),
    {
        self.cap.best_address_width()
    }

    pub fn supports_leaf_size(self, size: PageSize) -> (r: bool)
        ensures
            r == self.cap.has_leaf_size(size),
    {
        self.cap.supports_leaf_size(size)
    }
}

/// The domain of a token has the token's root and the identifier and width of
/// its controls, and translates the second stage.
pub proof fn law_domain_is_that_of_its_token(token: VtdDomainToken)
    ensures
        token.spec_domain().root == token.root,
        token.spec_domain().id == token.controls.id,
        token.spec_domain().width == token.controls.width,
        token.spec_domain().stage == TranslationStage::Stage2,
{
}

} // verus!
