//! Intel VT-d DMAR firmware table parsing.

use vstd::prelude::*;
use vstd::std_specs::convert::FromSpecImpl;

use crate::addr::{mmio_window_at, AddrRange, MmioAddrRange, PhysAddr, PhysAddrRange};
use crate::bytes::{get_u16, get_u32, get_u64};
use crate::firm::acpi::{table_bytes, AcpiError, SdtFault, Signature};
use crate::firm::pcie::{Bdf, BdfRange, BdfRangeSet, BdfRangeSetError, PciDevice};
use crate::memory::PagingError;
use crate::walk::{Visitor, Visits, Walk};

verus! {

const DMAR_HOST_ADDRESS_WIDTH_OFFSET: usize = 36;

const DMAR_FLAGS_OFFSET: usize = 37;

const DMAR_STRUCTURES_OFFSET: usize = 48;

const DMAR_DRHD: u16 = 0;

const DMAR_RMRR: u16 = 1;

const DMAR_ATSR: u16 = 2;

const DMAR_RHSA: u16 = 3;

const DMAR_ANDD: u16 = 4;

const DMAR_SATC: u16 = 5;

const DMAR_SIDP: u16 = 6;

const DRHD_MIN_LENGTH: usize = 16;

const RMRR_MIN_LENGTH: usize = 24;

const ATSR_MIN_LENGTH: usize = 8;

const RHSA_MIN_LENGTH: usize = 20;

const ANDD_MIN_LENGTH: usize = 8;

const SATC_MIN_LENGTH: usize = 8;

const SIDP_MIN_LENGTH: usize = 8;

const DEVICE_SCOPE_HEADER_LENGTH: usize = 6;

/// Size of the register window of one VT-d unit.
pub const VTD_REGISTER_WINDOW_SIZE: usize = 0x1000;

pub const DMAR_REQUESTER_WINDOW_CAPACITY: usize = 16;

pub type DmarBdfRangeSet = BdfRangeSet<DMAR_REQUESTER_WINDOW_CAPACITY>;

pub type DmarBdfRange = BdfRange;

#[derive(Clone, Copy, Debug, PartialEq, Eq)]
pub enum DmarError {
    Acpi(AcpiError),
    BdfRanges(BdfRangeSetError),
    Mapping(PagingError),
    Malformed(&'static str),
}

impl From<AcpiError> for DmarError {
    fn from(value: AcpiError) -> (r: Self) {
        DmarError::Acpi(value)
    }
}

impl FromSpecImpl<AcpiError> for DmarError {
    open spec fn obeys_from_spec() -> bool {
        true
    }

    open spec fn from_spec(value: AcpiError) -> Self {
        DmarError::Acpi(value)
    }
}

impl From<BdfRangeSetError> for DmarError {
    fn from(value: BdfRangeSetError) -> (r: Self) {
        DmarError::BdfRanges(value)
    }
}

impl FromSpecImpl<BdfRangeSetError> for DmarError {
    open spec fn obeys_from_spec() -> bool {
        true
    }

    open spec fn from_spec(value: BdfRangeSetError) -> Self {
        DmarError::BdfRanges(value)
    }
}

impl From<PagingError> for DmarError {
    fn from(value: PagingError) -> (r: Self) {
        DmarError::Mapping(value)
    }
}

impl FromSpecImpl<PagingError> for DmarError {
    open spec fn obeys_from_spec() -> bool {
        true
    }

    open spec fn from_spec(value: PagingError) -> Self {
        DmarError::Mapping(value)
    }
}

#[derive(Clone, Copy, Debug, PartialEq, Eq)]
pub enum DmarStructure<'a> {
    Drhd(DmarDrhd),
    Rmrr(DmarRmrr),
    Atsr(DmarAtsr),
    Rhsa(DmarRhsa),
    Andd(DmarAndd<'a>),
    Satc(DmarSatc),
    Sidp(DmarSidp),
    Unknown(DmarUnknown),
}

/// A remapping structure with its bytes as a sequence.
pub enum Structure {
    Drhd(DmarDrhd),
    Rmrr(DmarRmrr),
    Atsr(DmarAtsr),
    Rhsa(DmarRhsa),
    Andd { acpi_device_number: u8, object_name: Seq<u8> },
    Satc(DmarSatc),
    Sidp(DmarSidp),
    Unknown(DmarUnknown),
}

impl<'a> View for DmarStructure<'a> {
    type V = Structure;

    open spec fn view(&self) -> Structure {
        match *self {
            DmarStructure::Drhd(unit) => Structure::Drhd(unit),
            DmarStructure::Rmrr(region) => Structure::Rmrr(region),
            DmarStructure::Atsr(unit) => Structure::Atsr(unit),
            DmarStructure::Rhsa(affinity) => Structure::Rhsa(affinity),
            DmarStructure::Andd(device) => Structure::Andd {
                acpi_device_number: device.acpi_device_number,
                object_name: device.object_name@,
            },
            DmarStructure::Satc(unit) => Structure::Satc(unit),
            DmarStructure::Sidp(unit) => Structure::Sidp(unit),
            DmarStructure::Unknown(other) => Structure::Unknown(other),
        }
    }
}

#[derive(Clone, Copy, Debug, PartialEq, Eq)]
pub struct DmarUnknown {
    pub kind: u16,
    pub offset: usize,
    pub length: usize,
}

/// Hardware unit definition: one VT-d unit.
#[derive(Clone, Copy, Debug, PartialEq, Eq)]
pub struct DmarDrhd {
    pub flags: u8,
    pub segment: u16,
    pub registers: MmioAddrRange,
    pub include_all: bool,
    pub has_device_scopes: bool,
    /// Where the structure starts in its table.
    pub structure_offset: usize,
    /// The number of bytes of the structure.
    pub length: usize,
}

/// Reserved memory region: memory that devices reach untranslated.
#[derive(Clone, Copy, Debug, PartialEq, Eq)]
pub struct DmarRmrr {
    pub segment: u16,
    pub memory: PhysAddrRange,
    pub has_device_scopes: bool,
    /// Where the structure starts in its table.
    pub structure_offset: usize,
    /// The number of bytes of the structure.
    pub length: usize,
}

/// Root ports that support address translation services.
#[derive(Clone, Copy, Debug, PartialEq, Eq)]
pub struct DmarAtsr {
    pub flags: u8,
    pub segment: u16,
    pub include_all: bool,
    pub has_device_scopes: bool,
    /// Where the structure starts in its table.
    pub structure_offset: usize,
    /// The number of bytes of the structure.
    pub length: usize,
}

/// Proximity domain of one VT-d unit.
#[derive(Clone, Copy, Debug, PartialEq, Eq)]
pub struct DmarRhsa {
    pub registers: MmioAddrRange,
    pub proximity_domain: u32,
}

/// ACPI name-space device behind a VT-d unit.
#[derive(Clone, Copy, Debug, PartialEq, Eq)]
pub struct DmarAndd<'a> {
    pub acpi_device_number: u8,
    pub object_name: &'a [u8],
}

/// Integrated devices with an address translation cache.
#[derive(Clone, Copy, Debug, PartialEq, Eq)]
pub struct DmarSatc {
    pub flags: u8,
    pub segment: u16,
    pub atc_required: bool,
    pub has_device_scopes: bool,
    /// Where the structure starts in its table.
    pub structure_offset: usize,
    /// The number of bytes of the structure.
    pub length: usize,
}

/// Integrated device properties.
#[derive(Clone, Copy, Debug, PartialEq, Eq)]
pub struct DmarSidp {
    pub segment: u16,
    pub has_device_scopes: bool,
    /// Where the structure starts in its table.
    pub structure_offset: usize,
    /// The number of bytes of the structure.
    pub length: usize,
}

#[derive(Clone, Copy, Debug, PartialEq, Eq)]
pub struct DmarDeviceScope<'a> {
    pub kind: DmarDeviceScopeKind,
    pub flags: u8,
    pub enumeration_id: u8,
    pub start_bus: u8,
    pub path: DmarDeviceScopePath<'a>,
    pub requester: Option<BdfRange>,
}

/// A device scope with its bytes as a sequence.
pub struct Scope {
    pub kind: DmarDeviceScopeKind,
    pub flags: u8,
    pub enumeration_id: u8,
    pub start_bus: u8,
    pub path: Seq<u8>,
    pub requester: Option<BdfRange>,
}

impl<'a> View for DmarDeviceScope<'a> {
    type V = Scope;

    open spec fn view(&self) -> Scope {
        Scope {
            kind: self.kind,
            flags: self.flags,
            enumeration_id: self.enumeration_id,
            start_bus: self.start_bus,
            path: self.path@,
            requester: self.requester,
        }
    }
}

/// The way from a bus to a device: device and function number of each hop.
#[derive(Clone, Copy, Debug, PartialEq, Eq)]
pub struct DmarDeviceScopePath<'a> {
    bytes: &'a [u8],
}

/// The requester at the end of a path of one hop.
pub open spec fn spec_single_requester(path: Seq<u8>, start_bus: u8) -> Result<Bdf, DmarError> {
    if path.len() / 2 != 1 {
        Err(DmarError::Malformed("DMAR scope path is not a single requester"))
    } else {
        match Bdf::spec_new(start_bus, path[0], path[1]) {
            Ok(bdf) => Ok(bdf),
            Err(_) => Err(DmarError::Malformed("DMAR scope requester BDF is invalid")),
        }
    }
}

impl<'a> DmarDeviceScopePath<'a> {
    /// The bytes of the path.
    pub closed spec fn view(self) -> Seq<u8> {
        self.bytes@
    }

    /// Hop `index` of the path.
    pub open spec fn spec_entry(self, index: int) -> Option<DmarDeviceScopePathEntry> {
        if 2 * index + 1 < self@.len() {
            Some(
                DmarDeviceScopePathEntry {
                    device: self@[2 * index],
                    function: self@[2 * index + 1],
                },
            )
        } else {
            None
        }
    }

    pub fn as_bytes(self) -> (r: &'a [u8])
        ensures
            r@ == self@,
    {
        self.bytes
    }

    pub fn depth(self) -> (r: usize)
        ensures
            r == self@.len() / 2,
    {
        self.bytes.len() / 2
    }

    pub fn entry(self, index: usize) -> (r: Option<DmarDeviceScopePathEntry>)
        ensures
            r == self.spec_entry(index as int),
    {
        assert(self.bytes.len() == self@.len());
        if index >= self.depth() {
            return None;
        }
        Some(
            DmarDeviceScopePathEntry {
                device: self.bytes[2 * index],
                function: self.bytes[2 * index + 1],
            },
        )
    }

    pub fn last_entry(self) -> (r: Option<DmarDeviceScopePathEntry>)
        ensures
            r == (if self@.len() < 2 {
                None
            } else {
                self.spec_entry(self@.len() / 2 - 1)
            }),
    {
        let depth = self.depth();
        if depth == 0 {
            None
        } else {
            self.entry(depth - 1)
        }
    }

    pub fn single_requester(self, start_bus: u8) -> (r: Result<Bdf, DmarError>)
        ensures
            r == spec_single_requester(self@, start_bus),
    {
        if self.depth() != 1 {
            return Err(DmarError::Malformed("DMAR scope path is not a single requester"));
        }
        let entry = match self.entry(0) {
            Some(entry) => entry,
            None => return Err(DmarError::Malformed("DMAR scope path missing requester")),
        };
        match Bdf::new(start_bus, entry.device, entry.function) {
            Ok(bdf) => Ok(bdf),
            Err(_) => Err(DmarError::Malformed("DMAR scope requester BDF is invalid")),
        }
    }
}

#[derive(Clone, Copy, Debug, PartialEq, Eq, Structural)]
pub struct DmarDeviceScopePathEntry {
    pub device: u8,
    pub function: u8,
}

#[derive(Clone, Copy, Debug, PartialEq, Eq, Structural)]
pub enum DmarDeviceScopeKind {
    Endpoint,
    Bridge,
    IoApic,
    Hpet,
    NamespaceDevice,
    Unknown(u8),
}

impl DmarDeviceScopeKind {
    pub open spec fn spec_from_raw(raw: u8) -> Self {
        if raw == 1 {
            DmarDeviceScopeKind::Endpoint
        } else if raw == 2 {
            DmarDeviceScopeKind::Bridge
        } else if raw == 3 {
            DmarDeviceScopeKind::IoApic
        } else if raw == 4 {
            DmarDeviceScopeKind::Hpet
        } else if raw == 5 {
            DmarDeviceScopeKind::NamespaceDevice
        } else {
            DmarDeviceScopeKind::Unknown(raw)
        }
    }

    fn from_raw(raw: u8) -> (r: Self)
        ensures
            r == Self::spec_from_raw(raw),
    {
        match raw {
            1 => DmarDeviceScopeKind::Endpoint,
            2 => DmarDeviceScopeKind::Bridge,
            3 => DmarDeviceScopeKind::IoApic,
            4 => DmarDeviceScopeKind::Hpet,
            5 => DmarDeviceScopeKind::NamespaceDevice,
            other => DmarDeviceScopeKind::Unknown(other),
        }
    }
}

#[derive(Clone, Copy, Debug, PartialEq, Eq, Structural)]
pub enum DmarRequesterMatch {
    Covered,
    NotCovered,
    Unresolved,
}

/// The device scope of `length` bytes at `at`.
pub open spec fn scope_at(s: Seq<u8>, at: int, length: int) -> Scope {
    let path = s.subrange(at + 6, at + length);
    Scope {
        kind: DmarDeviceScopeKind::spec_from_raw(s[at]),
        flags: s[at + 2],
        enumeration_id: s[at + 4],
        start_bus: s[at + 5],
        path,
        requester: match spec_single_requester(path, s[at + 5]) {
            Ok(bdf) => Some(BdfRange::of(bdf.0 as int, bdf.0 + 1)),
            Err(_) => None,
        },
    }
}

/// The device scopes of the structure at `structure`, which is `length` bytes
/// long, from `offset` in the structure on. A scope that leaves the table is
/// bad.
pub open spec fn device_scopes(s: Seq<u8>, structure: int, length: int, offset: int) -> Walk<
    Scope,
    DmarError,
>
    decreases length - offset,
{
    let at = structure + offset;
    let size = s[at + 1] as int;
    if offset >= length {
        Walk::end()
    } else if offset + 6 > length {
        Walk::fail(DmarError::Malformed("DMAR device scope truncated before fixed header"))
    } else if at + 2 > s.len() {
        Walk::fail(DmarError::Malformed("DMAR table read is out of bounds"))
    } else if size < 6 {
        Walk::fail(DmarError::Malformed("DMAR device scope shorter than minimum"))
    } else if offset + size > length {
        Walk::fail(DmarError::Malformed("DMAR device scope extends past structure"))
    } else if size % 2 != 0 {
        Walk::fail(DmarError::Malformed("DMAR device scope path has odd byte length"))
    } else if at + size > s.len() {
        Walk::fail(DmarError::Malformed("DMAR table read is out of bounds"))
    } else {
        Walk::cons(scope_at(s, at, size), device_scopes(s, structure, length, offset + size))
    }
}

/// Reader of the device scopes of one structure.
#[derive(Clone, Copy, Debug)]
pub struct DmarDeviceScopes<'a> {
    sdt: &'a [u8],
    structure_offset: usize,
    structure_length: usize,
    offset: usize,
}

impl<'a> DmarDeviceScopes<'a> {
    /// The scopes that are still to be read.
    pub closed spec fn remaining(self) -> Walk<Scope, DmarError> {
        device_scopes(
            self.sdt@,
            self.structure_offset as int,
            self.structure_length as int,
            self.offset as int,
        )
    }

    /// The number of bytes that are still to be read.
    pub closed spec fn bytes_left(self) -> int {
        if self.offset < self.structure_length {
            self.structure_length - self.offset
        } else {
            0
        }
    }

    fn new(
        sdt: &'a [u8],
        structure_offset: usize,
        scopes_offset: usize,
        structure_length: usize,
    ) -> (r: Self)
        ensures
            r.remaining() == device_scopes(
                sdt@,
                structure_offset as int,
                structure_length as int,
                scopes_offset as int,
            ),
    {
        DmarDeviceScopes { sdt, structure_offset, structure_length, offset: scopes_offset }
    }

    /// The next scope, or what is wrong with it. A bad scope stays the next
    /// one.
    pub fn next(&mut self) -> (r: Option<Result<DmarDeviceScope<'a>, DmarError>>)
        ensures
            !(r matches Some(Ok(_))) ==> *final(self) == *old(self),
            match r {
                None => old(self).remaining() == Walk::<Scope, DmarError>::end(),
                Some(Err(error)) => old(self).remaining() == Walk::<Scope, DmarError>::fail(error),
                Some(Ok(scope)) => {
                    &&& old(self).remaining().items.len() > 0
                    &&& scope@ == old(self).remaining().items[0]
                    &&& scope.requester matches Some(range) ==> range.wf()
                    &&& final(self).remaining() == old(self).remaining().rest()
                    &&& final(self).bytes_left() < old(self).bytes_left()
                },
            },
    {
        let sdt = self.sdt;
        assert(sdt.len() == sdt@.len());
        if self.offset >= self.structure_length {
            return None;
        }
        let room = self.structure_length - self.offset;
        if room < DEVICE_SCOPE_HEADER_LENGTH {
            return Some(
                Err(DmarError::Malformed("DMAR device scope truncated before fixed header")),
            );
        }
        if self.structure_offset >= sdt.len() || self.offset >= sdt.len() - self.structure_offset {
            return Some(Err(DmarError::Malformed("DMAR table read is out of bounds")));
        }
        let at = self.structure_offset + self.offset;
        let left = sdt.len() - at;
        if left < 2 {
            return Some(Err(DmarError::Malformed("DMAR table read is out of bounds")));
        }
        let size = sdt[at + 1] as usize;
        if size < DEVICE_SCOPE_HEADER_LENGTH {
            return Some(Err(DmarError::Malformed("DMAR device scope shorter than minimum")));
        }
        if size > room {
            return Some(Err(DmarError::Malformed("DMAR device scope extends past structure")));
        }
        if size % 2 != 0 {
            return Some(Err(DmarError::Malformed("DMAR device scope path has odd byte length")));
        }
        if size > left {
            return Some(Err(DmarError::Malformed("DMAR table read is out of bounds")));
        }
        let start_bus = sdt[at + 5];
        let path = DmarDeviceScopePath {
            bytes: vstd::slice::slice_subrange(sdt, at + DEVICE_SCOPE_HEADER_LENGTH, at + size),
        };
        let requester = match path.single_requester(start_bus) {
            Ok(bdf) => Some(BdfRange::single(bdf)),
            Err(_) => None,
        };
        let scope = DmarDeviceScope {
            kind: DmarDeviceScopeKind::from_raw(sdt[at]),
            flags: sdt[at + 2],
            enumeration_id: sdt[at + 4],
            start_bus,
            path,
            requester,
        };
        self.offset = self.offset + size;
        proof {
            Walk::lemma_cons(scope@, self.remaining());
        }
        Some(Ok(scope))
    }
}

/// The hardware unit definition of `length` bytes at `offset`.
pub open spec fn drhd_at(s: Seq<u8>, offset: int, length: int) -> Result<Structure, DmarError> {
    let base = crate::bytes::le64(s, offset + 8);
    if length < 16 {
        Err(DmarError::Malformed("DMAR DRHD structure shorter than minimum"))
    } else if base > usize::MAX {
        Err(DmarError::Malformed("DMAR DRHD register base cannot fit in usize"))
    } else if base + 0x1000 > usize::MAX {
        Err(DmarError::Malformed("DMAR DRHD register window overflows"))
    } else {
        Ok(
            Structure::Drhd(
                DmarDrhd {
                    flags: s[offset + 4],
                    segment: crate::bytes::le16(s, offset + 6),
                    registers: crate::addr::mmio_window(base as usize, 0x1000),
                    include_all: s[offset + 4] % 2 == 1,
                    has_device_scopes: length > 16,
                    structure_offset: offset as usize,
                    length: length as usize,
                },
            ),
        )
    }
}

/// The reserved memory region of `length` bytes at `offset`.
pub open spec fn rmrr_at(s: Seq<u8>, offset: int, length: int) -> Result<Structure, DmarError> {
    let base = crate::bytes::le64(s, offset + 8);
    let limit = crate::bytes::le64(s, offset + 16);
    if length < 24 {
        Err(DmarError::Malformed("DMAR RMRR structure shorter than minimum"))
    } else if limit < base {
        Err(DmarError::Malformed("DMAR RMRR limit smaller than base"))
    } else if base > usize::MAX {
        Err(DmarError::Malformed("DMAR RMRR address cannot fit in usize"))
    } else if limit == u64::MAX {
        Err(DmarError::Malformed("DMAR RMRR inclusive limit overflows"))
    } else if limit + 1 > usize::MAX {
        Err(DmarError::Malformed("DMAR RMRR address cannot fit in usize"))
    } else {
        Ok(
            Structure::Rmrr(
                DmarRmrr {
                    segment: crate::bytes::le16(s, offset + 6),
                    memory: AddrRange {
                        start: PhysAddr(base as usize),
                        end: PhysAddr((limit + 1) as usize),
                    },
                    has_device_scopes: length > 24,
                    structure_offset: offset as usize,
                    length: length as usize,
                },
            ),
        )
    }
}

/// The root port structure of `length` bytes at `offset`.
pub open spec fn atsr_at(s: Seq<u8>, offset: int, length: int) -> Result<Structure, DmarError> {
    if length < 8 {
        Err(DmarError::Malformed("DMAR ATSR structure shorter than minimum"))
    } else {
        Ok(
            Structure::Atsr(
                DmarAtsr {
                    flags: s[offset + 4],
                    segment: crate::bytes::le16(s, offset + 6),
                    include_all: s[offset + 4] % 2 == 1,
                    has_device_scopes: length > 8,
                    structure_offset: offset as usize,
                    length: length as usize,
                },
            ),
        )
    }
}

/// The affinity structure of `length` bytes at `offset`.
pub open spec fn rhsa_at(s: Seq<u8>, offset: int, length: int) -> Result<Structure, DmarError> {
    let base = crate::bytes::le64(s, offset + 8);
    if length < 20 {
        Err(DmarError::Malformed("DMAR RHSA structure shorter than minimum"))
    } else if base > usize::MAX {
        Err(DmarError::Malformed("DMAR RHSA register base cannot fit in usize"))
    } else if base + 0x1000 > usize::MAX {
        Err(DmarError::Malformed("DMAR RHSA register window overflows"))
    } else {
        Ok(
            Structure::Rhsa(
                DmarRhsa {
                    registers: crate::addr::mmio_window(base as usize, 0x1000),
                    proximity_domain: crate::bytes::le32(s, offset + 16),
                },
            ),
        )
    }
}

/// The name-space device structure of `length` bytes at `offset`.
pub open spec fn andd_at(s: Seq<u8>, offset: int, length: int) -> Result<Structure, DmarError> {
    if length < 8 {
        Err(DmarError::Malformed("DMAR ANDD structure shorter than minimum"))
    } else {
        Ok(
            Structure::Andd {
                acpi_device_number: s[offset + 7],
                object_name: s.subrange(offset + 8, offset + length),
            },
        )
    }
}

/// The translation cache structure of `length` bytes at `offset`.
pub open spec fn satc_at(s: Seq<u8>, offset: int, length: int) -> Result<Structure, DmarError> {
    if length < 8 {
        Err(DmarError::Malformed("DMAR SATC structure shorter than minimum"))
    } else {
        Ok(
            Structure::Satc(
                DmarSatc {
                    flags: s[offset + 4],
                    segment: crate::bytes::le16(s, offset + 6),
                    atc_required: s[offset + 4] % 2 == 1,
                    has_device_scopes: length > 8,
                    structure_offset: offset as usize,
                    length: length as usize,
                },
            ),
        )
    }
}

/// The device property structure of `length` bytes at `offset`.
pub open spec fn sidp_at(s: Seq<u8>, offset: int, length: int) -> Result<Structure, DmarError> {
    if length < 8 {
        Err(DmarError::Malformed("DMAR SIDP structure shorter than minimum"))
    } else {
        Ok(
            Structure::Sidp(
                DmarSidp {
                    segment: crate::bytes::le16(s, offset + 6),
                    has_device_scopes: length > 8,
                    structure_offset: offset as usize,
                    length: length as usize,
                },
            ),
        )
    }
}

/// The structure of `length` bytes at `offset`, by its kind.
pub open spec fn structure_content(s: Seq<u8>, offset: int, length: int, kind: u16) -> Result<
    Structure,
    DmarError,
> {
    if kind == 0 {
        drhd_at(s, offset, length)
    } else if kind == 1 {
        rmrr_at(s, offset, length)
    } else if kind == 2 {
        atsr_at(s, offset, length)
    } else if kind == 3 {
        rhsa_at(s, offset, length)
    } else if kind == 4 {
        andd_at(s, offset, length)
    } else if kind == 5 {
        satc_at(s, offset, length)
    } else if kind == 6 {
        sidp_at(s, offset, length)
    } else {
        Ok(
            Structure::Unknown(
                DmarUnknown { kind, offset: offset as usize, length: length as usize },
            ),
        )
    }
}

/// What the structure at `offset` holds, and where the next one starts.
pub open spec fn structure_at(s: Seq<u8>, offset: int) -> (Result<Structure, DmarError>, int) {
    let length = crate::bytes::le16(s, offset + 2) as int;
    if offset + 4 > s.len() {
        (Err(DmarError::Malformed("DMAR structure truncated before header")), s.len() as int)
    } else if length < 4 {
        (Err(DmarError::Malformed("DMAR structure length smaller than header")), s.len() as int)
    } else if offset + length > s.len() {
        (Err(DmarError::Malformed("DMAR structure extends past table length")), s.len() as int)
    } else {
        (
            structure_content(s, offset, length, crate::bytes::le16(s, offset)),
            offset + length,
        )
    }
}

/// The structures of a table from `offset` on.
pub open spec fn structures_from(s: Seq<u8>, offset: int) -> Walk<Structure, DmarError>
    decreases s.len() - offset,
{
    if offset >= s.len() {
        Walk::end()
    } else {
        match structure_at(s, offset) {
            (Err(error), _) => Walk::fail(error),
            (Ok(structure), next) => if next > offset {
                Walk::cons(structure, structures_from(s, next))
            } else {
                Walk::cons(structure, Walk::end())
            },
        }
    }
}

/// What `table_bytes` refuses a table for, as an error of this table.
pub open spec fn dmar_fault(fault: SdtFault) -> DmarError {
    match fault {
        SdtFault::ShortHeader => DmarError::Malformed("DMAR table shorter than SDT header"),
        SdtFault::Length => DmarError::Malformed("DMAR table length is invalid"),
        SdtFault::Acpi(error) => DmarError::Acpi(error),
    }
}

/// Whether the device scopes of a structure lie in the table `s`.
pub open spec fn scopes_in_table(structure: Structure, s: Seq<u8>) -> bool {
    match structure {
        Structure::Drhd(unit) => unit.structure_offset + unit.length <= s.len(),
        Structure::Rmrr(region) => region.structure_offset + region.length <= s.len(),
        Structure::Atsr(unit) => unit.structure_offset + unit.length <= s.len(),
        Structure::Satc(unit) => unit.structure_offset + unit.length <= s.len(),
        Structure::Sidp(unit) => unit.structure_offset + unit.length <= s.len(),
        _ => true,
    }
}

/// Structures with good bounds lie in the table.
proof fn lemma_structure_in_table(s: Seq<u8>, offset: int)
    requires
        0 <= offset < s.len(),
        s.len() <= usize::MAX,
    ensures
        structure_at(s, offset).0 matches Ok(structure) ==> scopes_in_table(structure, s),
{
}

/// DMA remapping reporting table.
#[derive(Clone, Copy, Debug)]
pub struct DmarTable<'a> {
    sdt: &'a [u8],
}

impl<'a> DmarTable<'a> {
    /// The bytes of the table.
    pub closed spec fn view(self) -> Seq<u8> {
        self.sdt@
    }

    /// The table holds its fixed header.
    pub open spec fn wf(self) -> bool {
        self@.len() >= 48
    }

    /// The table that `bytes` start with.
    pub fn parse(bytes: &'a [u8]) -> (r: Result<Self, DmarError>)
        ensures
            match crate::firm::acpi::sdt_table(bytes@, Signature([0x44, 0x4d, 0x41, 0x52])) {
                Err(fault) => r == Err::<Self, _>(dmar_fault(fault)),
                Ok(table) => if table.len() < 48 {
                    r == Err::<Self, _>(
                        DmarError::Malformed("DMAR table shorter than fixed header"),
                    )
                } else {
                    r matches Ok(parsed) && parsed@ == table && parsed.wf()
                },
            },
    {
        let signature = Signature::dmar();
        assert(signature.0 =~= [0x44u8, 0x4d, 0x41, 0x52]);
        let sdt = match table_bytes(bytes, signature) {
            Ok(sdt) => sdt,
            Err(SdtFault::ShortHeader) => return Err(
                DmarError::Malformed("DMAR table shorter than SDT header"),
            ),
            Err(SdtFault::Length) => return Err(
                DmarError::Malformed("DMAR table length is invalid"),
            ),
            Err(SdtFault::Acpi(error)) => return Err(DmarError::Acpi(error)),
        };
        if sdt.len() < DMAR_STRUCTURES_OFFSET {
            return Err(DmarError::Malformed("DMAR table shorter than fixed header"));
        }
        Ok(DmarTable { sdt })
    }

    pub fn bytes(self) -> (r: &'a [u8])
        ensures
            r@ == self@,
    {
        self.sdt
    }

    pub fn host_address_width(self) -> (r: Result<u8, DmarError>)
        requires
            self.wf(),
        ensures
            r == Ok::<u8, DmarError>(self@[36]),
    {
        Ok(self.sdt[DMAR_HOST_ADDRESS_WIDTH_OFFSET])
    }

    pub fn flags(self) -> (r: Result<u8, DmarError>)
        requires
            self.wf(),
        ensures
            r == Ok::<u8, DmarError>(self@[37]),
    {
        Ok(self.sdt[DMAR_FLAGS_OFFSET])
    }

    /// The structures of the table.
    pub open spec fn spec_structures(self) -> Walk<Structure, DmarError> {
        structures_from(self@, 48)
    }

    pub fn structures(self) -> (r: DmarStructures<'a>)
        requires
            self.wf(),
        ensures
            r.wf(),
            r.table_bytes() == self@,
            r.position() == 48,
            r.remaining() == self.spec_structures(),
    {
        DmarStructures { table: self, offset: DMAR_STRUCTURES_OFFSET }
    }

    fn parse_structure(self, offset: usize, length: usize, kind: u16) -> (r: Result<
        DmarStructure<'a>,
        DmarError,
    >)
        requires
            offset + length <= self@.len(),
        ensures
            match structure_content(self@, offset as int, length as int, kind) {
                Ok(structure) => r matches Ok(read) && read@ == structure,
                Err(error) => r == Err::<DmarStructure<'a>, _>(error),
            },
    {
        match kind {
            DMAR_DRHD => match self.parse_drhd(offset, length) {
                Ok(unit) => Ok(DmarStructure::Drhd(unit)),
                Err(error) => Err(error),
            },
            DMAR_RMRR => match self.parse_rmrr(offset, length) {
                Ok(region) => Ok(DmarStructure::Rmrr(region)),
                Err(error) => Err(error),
            },
            DMAR_ATSR => match self.parse_atsr(offset, length) {
                Ok(unit) => Ok(DmarStructure::Atsr(unit)),
                Err(error) => Err(error),
            },
            DMAR_RHSA => match self.parse_rhsa(offset, length) {
                Ok(affinity) => Ok(DmarStructure::Rhsa(affinity)),
                Err(error) => Err(error),
            },
            DMAR_ANDD => match self.parse_andd(offset, length) {
                Ok(device) => Ok(DmarStructure::Andd(device)),
                Err(error) => Err(error),
            },
            DMAR_SATC => match self.parse_satc(offset, length) {
                Ok(unit) => Ok(DmarStructure::Satc(unit)),
                Err(error) => Err(error),
            },
            DMAR_SIDP => match self.parse_sidp(offset, length) {
                Ok(unit) => Ok(DmarStructure::Sidp(unit)),
                Err(error) => Err(error),
            },
            other => Ok(DmarStructure::Unknown(DmarUnknown { kind: other, offset, length })),
        }
    }

    fn parse_drhd(self, offset: usize, length: usize) -> (r: Result<DmarDrhd, DmarError>)
        requires
            offset + length <= self@.len(),
        ensures
            match drhd_at(self@, offset as int, length as int) {
                Ok(structure) => r matches Ok(unit) && structure == Structure::Drhd(unit),
                Err(error) => r == Err::<DmarDrhd, _>(error),
            },
    {
        let sdt = self.sdt;
        assert(sdt.len() == sdt@.len());
        if length < DRHD_MIN_LENGTH {
            return Err(DmarError::Malformed("DMAR DRHD structure shorter than minimum"));
        }
        let base = get_u64(sdt, offset + 8);
        if base > usize::MAX as u64 {
            return Err(DmarError::Malformed("DMAR DRHD register base cannot fit in usize"));
        }
        let registers = match mmio_window_at(base as usize, VTD_REGISTER_WINDOW_SIZE) {
            Some(registers) => registers,
            None => return Err(DmarError::Malformed("DMAR DRHD register window overflows")),
        };
        let flags = sdt[offset + 4];
        Ok(
            DmarDrhd {
                flags,
                segment: get_u16(sdt, offset + 6),
                registers,
                include_all: flags % 2 == 1,
                has_device_scopes: length > DRHD_MIN_LENGTH,
                structure_offset: offset,
                length,
            },
        )
    }

    fn parse_andd(self, offset: usize, length: usize) -> (r: Result<DmarAndd<'a>, DmarError>)
        requires
            offset + length <= self@.len(),
        ensures
            match andd_at(self@, offset as int, length as int) {
                Ok(structure) => r matches Ok(device) && structure == (Structure::Andd {
                    acpi_device_number: device.acpi_device_number,
                    object_name: device.object_name@,
                }),
                Err(error) => r == Err::<DmarAndd<'a>, _>(error),
            },
    {
        let sdt = self.sdt;
        assert(sdt.len() == sdt@.len());
        if length < ANDD_MIN_LENGTH {
            return Err(DmarError::Malformed("DMAR ANDD structure shorter than minimum"));
        }
        Ok(
            DmarAndd {
                acpi_device_number: sdt[offset + 7],
                object_name: vstd::slice::slice_subrange(
                    sdt,
                    offset + ANDD_MIN_LENGTH,
                    offset + length,
                ),
            },
        )
    }

    fn parse_rmrr(self, offset: usize, length: usize) -> (r: Result<DmarRmrr, DmarError>)
        requires
            offset + length <= self@.len(),
        ensures
            match rmrr_at(self@, offset as int, length as int) {
                Ok(structure) => r matches Ok(region) && structure == Structure::Rmrr(region),
                Err(error) => r == Err::<DmarRmrr, _>(error),
            },
    {
        let sdt = self.sdt;
        assert(sdt.len() == sdt@.len());
        if length < RMRR_MIN_LENGTH {
            return Err(DmarError::Malformed("DMAR RMRR structure shorter than minimum"));
        }
        let base = get_u64(sdt, offset + 8);
        let limit = get_u64(sdt, offset + 16);
        if limit < base {
            return Err(DmarError::Malformed("DMAR RMRR limit smaller than base"));
        }
        if base > usize::MAX as u64 {
            return Err(DmarError::Malformed("DMAR RMRR address cannot fit in usize"));
        }
        let end = match limit.checked_add(1) {
            Some(end) => end,
            None => return Err(DmarError::Malformed("DMAR RMRR inclusive limit overflows")),
        };
        if end > usize::MAX as u64 {
            return Err(DmarError::Malformed("DMAR RMRR address cannot fit in usize"));
        }
        Ok(
            DmarRmrr {
                segment: get_u16(sdt, offset + 6),
                memory: PhysAddrRange::new(
                    PhysAddr::from_usize(base as usize),
                    PhysAddr::from_usize(end as usize),
                ),
                has_device_scopes: length > RMRR_MIN_LENGTH,
                structure_offset: offset,
                length,
            },
        )
    }

    fn parse_atsr(self, offset: usize, length: usize) -> (r: Result<DmarAtsr, DmarError>)
        requires
            offset + length <= self@.len(),
        ensures
            match atsr_at(self@, offset as int, length as int) {
                Ok(structure) => r matches Ok(unit) && structure == Structure::Atsr(unit),
                Err(error) => r == Err::<DmarAtsr, _>(error),
            },
    {
        let sdt = self.sdt;
        assert(sdt.len() == sdt@.len());
        if length < ATSR_MIN_LENGTH {
            return Err(DmarError::Malformed("DMAR ATSR structure shorter than minimum"));
        }
        let flags = sdt[offset + 4];
        Ok(
            DmarAtsr {
                flags,
                segment: get_u16(sdt, offset + 6),
                include_all: flags % 2 == 1,
                has_device_scopes: length > ATSR_MIN_LENGTH,
                structure_offset: offset,
                length,
            },
        )
    }

    fn parse_rhsa(self, offset: usize, length: usize) -> (r: Result<DmarRhsa, DmarError>)
        requires
            offset + length <= self@.len(),
        ensures
            match rhsa_at(self@, offset as int, length as int) {
                Ok(structure) => r matches Ok(affinity) && structure == Structure::Rhsa(affinity),
                Err(error) => r == Err::<DmarRhsa, _>(error),
            },
    {
        let sdt = self.sdt;
        assert(sdt.len() == sdt@.len());
        if length < RHSA_MIN_LENGTH {
            return Err(DmarError::Malformed("DMAR RHSA structure shorter than minimum"));
        }
        let base = get_u64(sdt, offset + 8);
        if base > usize::MAX as u64 {
            return Err(DmarError::Malformed("DMAR RHSA register base cannot fit in usize"));
        }
        let registers = match mmio_window_at(base as usize, VTD_REGISTER_WINDOW_SIZE) {
            Some(registers) => registers,
            None => return Err(DmarError::Malformed("DMAR RHSA register window overflows")),
        };
        Ok(DmarRhsa { registers, proximity_domain: get_u32(sdt, offset + 16) })
    }

    fn parse_satc(self, offset: usize, length: usize) -> (r: Result<DmarSatc, DmarError>)
        requires
            offset + length <= self@.len(),
        ensures
            match satc_at(self@, offset as int, length as int) {
                Ok(structure) => r matches Ok(unit) && structure == Structure::Satc(unit),
                Err(error) => r == Err::<DmarSatc, _>(error),
            },
    {
        let sdt = self.sdt;
        assert(sdt.len() == sdt@.len());
        if length < SATC_MIN_LENGTH {
            return Err(DmarError::Malformed("DMAR SATC structure shorter than minimum"));
        }
        let flags = sdt[offset + 4];
        Ok(
            DmarSatc {
                flags,
                segment: get_u16(sdt, offset + 6),
                atc_required: flags % 2 == 1,
                has_device_scopes: length > SATC_MIN_LENGTH,
                structure_offset: offset,
                length,
            },
        )
    }

    fn parse_sidp(self, offset: usize, length: usize) -> (r: Result<DmarSidp, DmarError>)
        requires
            offset + length <= self@.len(),
        ensures
            match sidp_at(self@, offset as int, length as int) {
                Ok(structure) => r matches Ok(unit) && structure == Structure::Sidp(unit),
                Err(error) => r == Err::<DmarSidp, _>(error),
            },
    {
        let sdt = self.sdt;
        assert(sdt.len() == sdt@.len());
        if length < SIDP_MIN_LENGTH {
            return Err(DmarError::Malformed("DMAR SIDP structure shorter than minimum"));
        }
        Ok(
            DmarSidp {
                segment: get_u16(sdt, offset + 6),
                has_device_scopes: length > SIDP_MIN_LENGTH,
                structure_offset: offset,
                length,
            },
        )
    }
}

/// Reader of the structures of one table.
#[derive(Clone, Copy, Debug)]
pub struct DmarStructures<'a> {
    table: DmarTable<'a>,
    offset: usize,
}

impl<'a> DmarStructures<'a> {
    pub closed spec fn table_bytes(self) -> Seq<u8> {
        self.table@
    }

    /// Where the next structure starts.
    pub closed spec fn position(self) -> int {
        self.offset as int
    }

    pub open spec fn wf(self) -> bool {
        0 <= self.position()
    }

    /// The structures that are still to be read.
    pub open spec fn remaining(self) -> Walk<Structure, DmarError> {
        structures_from(self.table_bytes(), self.position())
    }

    /// The next structure, or what is wrong with it. Behind a structure whose
    /// bounds are bad there is nothing more to read; a structure with bad
    /// content is passed over.
    pub fn next(&mut self) -> (r: Option<Result<DmarStructure<'a>, DmarError>>)
        requires
            old(self).wf(),
        ensures
            final(self).wf(),
            final(self).table_bytes() == old(self).table_bytes(),
            if old(self).position() >= old(self).table_bytes().len() {
                r is None && final(self).position() == old(self).position()
            } else {
                let (content, next) = structure_at(
                    old(self).table_bytes(),
                    old(self).position(),
                );
                &&& final(self).position() == next
                &&& next > old(self).position()
                &&& match content {
                    Ok(structure) => r matches Some(Ok(read)) && read@ == structure,
                    Err(error) => r == Some(Err::<DmarStructure<'a>, _>(error)),
                }
            },
            match r {
                None => old(self).remaining() == Walk::<Structure, DmarError>::end(),
                Some(Err(error)) => old(self).remaining() == Walk::<Structure, DmarError>::fail(
                    error,
                ),
                Some(Ok(structure)) => {
                    &&& old(self).remaining().items.len() > 0
                    &&& old(self).remaining().items[0] == structure@
                    &&& final(self).remaining() == old(self).remaining().rest()
                    &&& scopes_in_table(structure@, old(self).table_bytes())
                },
            },
    {
        let sdt = self.table.sdt;
        assert(sdt.len() == sdt@.len());
        let offset = self.offset;
        if offset >= sdt.len() {
            return None;
        }
        if sdt.len() - offset < 4 {
            self.offset = sdt.len();
            return Some(Err(DmarError::Malformed("DMAR structure truncated before header")));
        }
        let kind = get_u16(sdt, offset);
        let length = get_u16(sdt, offset + 2) as usize;
        if length < 4 {
            self.offset = sdt.len();
            return Some(Err(DmarError::Malformed("DMAR structure length smaller than header")));
        }
        if length > sdt.len() - offset {
            self.offset = sdt.len();
            return Some(Err(DmarError::Malformed("DMAR structure extends past table length")));
        }
        self.offset = offset + length;
        let structure = self.table.parse_structure(offset, length, kind);
        proof {
            lemma_structure_in_table(sdt@, offset as int);
            if let Ok(content) = structure {
                Walk::lemma_cons(content@, self.remaining());
            }
        }
        Some(structure)
    }

    /// All structures that are still to be read, where all of them are good.
    pub fn collect(self) -> (r: Result<Vec<DmarStructure<'a>>, DmarError>)
        requires
            self.wf(),
        ensures
            match self.remaining().all() {
                Err(error) => r == Err::<Vec<DmarStructure<'a>>, _>(error),
                Ok(structures) => r matches Ok(found) && found@.len() == structures.len()
                    && forall|i: int|
                    0 <= i < structures.len() ==> (#[trigger] found@[i])@ == structures[i],
            },
    {
        let mut structures = self;
        let mut found: Vec<DmarStructure<'a>> = Vec::new();
        let ghost walk = self.remaining();
        loop
            invariant
                walk == self.remaining(),
                structures.wf(),
                walk.error == structures.remaining().error,
                walk.items.len() == found@.len() + structures.remaining().items.len(),
                forall|i: int| 0 <= i < found@.len() ==> (#[trigger] found@[i])@ == walk.items[i],
                forall|i: int|
                    0 <= i < structures.remaining().items.len()
                        ==> #[trigger] structures.remaining().items[i] == walk.items[found@.len()
                        + i],
                structures.table_bytes() == self.table_bytes(),
            decreases structures.table_bytes().len() - structures.position(),
        {
            let ghost before = structures.remaining();
            match structures.next() {
                None => {
                    return Ok(found);
                },
                Some(Err(error)) => return Err(error),
                Some(Ok(structure)) => {
                    assert(before.items[0] == walk.items[found@.len() as int]);
                    found.push(structure);
                    proof {
                        let rest = structures.remaining();
                        assert forall|i: int| 0 <= i < rest.items.len() implies
                            #[trigger] rest.items[i] == walk.items[found@.len() + i] by {
                            assert(rest.items[i] == before.items[i + 1]);
                        }
                    }
                },
            }
        }
    }
}

/// What a callback on device scopes may return for a scope.
pub open spec fn scope_outcome<'a, F: Fn(DmarDeviceScope<'a>) -> Result<(), DmarError>>(
    f: F,
) -> spec_fn(Scope, Result<(), DmarError>) -> bool {
    |scope: Scope, r: Result<(), DmarError>|
        exists|read: DmarDeviceScope<'a>| read@ == scope && #[trigger] call_ensures(f, (read,), r)
}

/// What a callback on structures may return for a structure.
pub open spec fn structure_outcome<'a, F: Fn(DmarStructure<'a>) -> Result<(), DmarError>>(
    f: F,
) -> spec_fn(Structure, Result<(), DmarError>) -> bool {
    |structure: Structure, r: Result<(), DmarError>|
        exists|read: DmarStructure<'a>|
            read@ == structure && #[trigger] call_ensures(f, (read,), r)
}

/// What a callback on hardware units may return for a structure, where other
/// structures are passed over.
pub open spec fn drhd_outcome<F: Fn(u8, DmarDrhd) -> Result<(), DmarError>>(
    f: F,
    host_width: u8,
) -> spec_fn(Structure, Result<(), DmarError>) -> bool {
    |structure: Structure, r: Result<(), DmarError>|
        match structure {
            Structure::Drhd(unit) => call_ensures(f, (host_width, unit), r),
            _ => r is Ok,
        }
}

/// What a callback on reserved memory regions may return for a structure,
/// where other structures are passed over.
pub open spec fn rmrr_outcome<F: Fn(DmarRmrr) -> Result<(), DmarError>>(f: F) -> spec_fn(
    Structure,
    Result<(), DmarError>,
) -> bool {
    |structure: Structure, r: Result<(), DmarError>|
        match structure {
            Structure::Rmrr(region) => call_ensures(f, (region,), r),
            _ => r is Ok,
        }
}

/// What a callback on root port structures may return for a structure,
/// where other structures are passed over.
pub open spec fn atsr_outcome<F: Fn(DmarAtsr) -> Result<(), DmarError>>(f: F) -> spec_fn(
    Structure,
    Result<(), DmarError>,
) -> bool {
    |structure: Structure, r: Result<(), DmarError>|
        match structure {
            Structure::Atsr(unit) => call_ensures(f, (unit,), r),
            _ => r is Ok,
        }
}

/// What a callback on affinity structures may return for a structure,
/// where other structures are passed over.
pub open spec fn rhsa_outcome<F: Fn(DmarRhsa) -> Result<(), DmarError>>(f: F) -> spec_fn(
    Structure,
    Result<(), DmarError>,
) -> bool {
    |structure: Structure, r: Result<(), DmarError>|
        match structure {
            Structure::Rhsa(affinity) => call_ensures(f, (affinity,), r),
            _ => r is Ok,
        }
}

/// What a callback on translation cache structures may return for a structure,
/// where other structures are passed over.
pub open spec fn satc_outcome<F: Fn(DmarSatc) -> Result<(), DmarError>>(f: F) -> spec_fn(
    Structure,
    Result<(), DmarError>,
) -> bool {
    |structure: Structure, r: Result<(), DmarError>|
        match structure {
            Structure::Satc(unit) => call_ensures(f, (unit,), r),
            _ => r is Ok,
        }
}

/// What a callback on device property structures may return for a structure,
/// where other structures are passed over.
pub open spec fn sidp_outcome<F: Fn(DmarSidp) -> Result<(), DmarError>>(f: F) -> spec_fn(
    Structure,
    Result<(), DmarError>,
) -> bool {
    |structure: Structure, r: Result<(), DmarError>|
        match structure {
            Structure::Sidp(unit) => call_ensures(f, (unit,), r),
            _ => r is Ok,
        }
}

/// What a callback on name-space devices may return for a structure, where
/// other structures are passed over.
pub open spec fn andd_outcome<'a, F: Fn(DmarAndd<'a>) -> Result<(), DmarError>>(
    f: F,
) -> spec_fn(Structure, Result<(), DmarError>) -> bool {
    |structure: Structure, r: Result<(), DmarError>|
        match structure {
            Structure::Andd { acpi_device_number, object_name } => exists|device: DmarAndd<'a>|
                device.acpi_device_number == acpi_device_number && device.object_name@
                    == object_name && #[trigger] call_ensures(f, (device,), r),
            _ => r is Ok,
        }
}

impl<'a> DmarTable<'a> {
    /// Reader of the device scopes of a hardware unit.
    pub fn drhd_device_scopes(self, unit: DmarDrhd) -> (r: DmarDeviceScopes<'a>)
        ensures
            r.remaining() == device_scopes(
                self@,
                unit.structure_offset as int,
                unit.length as int,
                16,
            ),
    {
        DmarDeviceScopes::new(self.sdt, unit.structure_offset, DRHD_MIN_LENGTH, unit.length)
    }

    /// Reader of the device scopes of a reserved memory region.
    pub fn rmrr_device_scopes(self, region: DmarRmrr) -> (r: DmarDeviceScopes<'a>)
        ensures
            r.remaining() == device_scopes(
                self@,
                region.structure_offset as int,
                region.length as int,
                24,
            ),
    {
        DmarDeviceScopes::new(self.sdt, region.structure_offset, RMRR_MIN_LENGTH, region.length)
    }

    /// Reader of the device scopes of a root port structure.
    pub fn atsr_device_scopes(self, unit: DmarAtsr) -> (r: DmarDeviceScopes<'a>)
        ensures
            r.remaining() == device_scopes(
                self@,
                unit.structure_offset as int,
                unit.length as int,
                8,
            ),
    {
        DmarDeviceScopes::new(self.sdt, unit.structure_offset, ATSR_MIN_LENGTH, unit.length)
    }

    /// Reader of the device scopes of an address translation cache structure.
    pub fn satc_device_scopes(self, unit: DmarSatc) -> (r: DmarDeviceScopes<'a>)
        ensures
            r.remaining() == device_scopes(
                self@,
                unit.structure_offset as int,
                unit.length as int,
                8,
            ),
    {
        DmarDeviceScopes::new(self.sdt, unit.structure_offset, SATC_MIN_LENGTH, unit.length)
    }

    /// Reader of the device scopes of a device property structure.
    pub fn sidp_device_scopes(self, unit: DmarSidp) -> (r: DmarDeviceScopes<'a>)
        ensures
            r.remaining() == device_scopes(
                self@,
                unit.structure_offset as int,
                unit.length as int,
                8,
            ),
    {
        DmarDeviceScopes::new(self.sdt, unit.structure_offset, SIDP_MIN_LENGTH, unit.length)
    }

    /// Hands the device scopes of a structure to a visitor.
    pub fn walk_device_scopes<V: Visitor<DmarDeviceScope<'a>, DmarError>>(
        self,
        structure_offset: usize,
        scopes_offset: usize,
        structure_length: usize,
        visitor: &mut V,
    ) -> (r: Result<(), DmarError>)
        requires
            old(visitor).ready(),
        ensures
            final(visitor).ready(),
            final(visitor).unused() == old(visitor).unused(),
            crate::walk::logged(
                device_scopes(
                    self@,
                    structure_offset as int,
                    structure_length as int,
                    scopes_offset as int,
                ),
                old(visitor).log(),
                final(visitor).log(),
                r,
            ),
    {
        let mut scopes = DmarDeviceScopes::new(
            self.sdt,
            structure_offset,
            scopes_offset,
            structure_length,
        );
        let ghost walk = device_scopes(
                    self@,
                    structure_offset as int,
                    structure_length as int,
                    scopes_offset as int,
                );
        let ghost base = visitor.log();
        proof {
            crate::walk::lemma_handing_begins(walk, base);
        }
        loop
            invariant
                walk == device_scopes(
                    self@,
                    structure_offset as int,
                    structure_length as int,
                    scopes_offset as int,
                ),
                base == old(visitor).log(),
                visitor.ready(),
                visitor.unused() == old(visitor).unused(),
                crate::walk::under_way(walk, scopes.remaining(), base, visitor.log()),
            decreases scopes.bytes_left(),
        {
            let ghost rest = scopes.remaining();
            let ghost log = visitor.log();
            match scopes.next() {
                None => {
                    proof {
                        crate::walk::lemma_handing_ends(walk, rest, base, log);
                    }
                    return Ok(());
                },
                Some(Err(error)) => {
                    proof {
                        crate::walk::lemma_handing_ends(walk, rest, base, log);
                    }
                    return Err(error);
                },
                Some(Ok(scope)) => {
                    let returned = visitor.visit(scope);
                    proof {
                        crate::walk::lemma_handing_goes_on(walk, rest, base, log, returned);
                    }
                    if returned.is_err() {
                        return returned;
                    }
                },
            }
        }
    }

    /// Hands the device scopes of a structure to `f`.
    fn for_each_device_scope<F>(
        self,
        structure_offset: usize,
        scopes_offset: usize,
        structure_length: usize,
        f: F,
    ) -> (r: Result<(), DmarError>) where
        F: Fn(DmarDeviceScope<'a>) -> Result<(), DmarError>,

        requires
            forall|scope: DmarDeviceScope<'a>| call_requires(f, (scope,)),
        ensures
            crate::walk::visited(
                scope_outcome(f),
                device_scopes(
                    self@,
                    structure_offset as int,
                    structure_length as int,
                    scopes_offset as int,
                ),
                r,
            ),
    {
        let mut visitor = Visits::new(f);
        let ghost start = visitor;
        let r = self.walk_device_scopes(
            structure_offset,
            scopes_offset,
            structure_length,
            &mut visitor,
        );
        proof {
            visitor.lemma_calls(start, f);
            assert(visitor.log().skip(0) =~= visitor.log());
            crate::walk::law_handed_records_are_visited(
                scope_outcome(f),
                device_scopes(
                    self@,
                    structure_offset as int,
                    structure_length as int,
                    scopes_offset as int,
                ),
                visitor.log(),
                r,
            );
        }
        r
    }

    /// Hands the structures of the table to a visitor.
    pub fn visit_structures<V: Visitor<DmarStructure<'a>, DmarError>>(self, visitor: &mut V) -> (r:
        Result<(), DmarError>)
        requires
            self.wf(),
            old(visitor).ready(),
        ensures
            final(visitor).ready(),
            final(visitor).unused() == old(visitor).unused(),
            crate::walk::logged(
                self.spec_structures(),
                old(visitor).log(),
                final(visitor).log(),
                r,
            ),
    {
        let mut structures = self.structures();
        let ghost walk = self.spec_structures();
        let ghost base = visitor.log();
        proof {
            crate::walk::lemma_handing_begins(walk, base);
        }
        loop
            invariant
                structures.wf(),
                walk == self.spec_structures(),
                base == old(visitor).log(),
                visitor.ready(),
                visitor.unused() == old(visitor).unused(),
                crate::walk::under_way(walk, structures.remaining(), base, visitor.log()),
            decreases structures.table_bytes().len() - structures.position(),
        {
            let ghost rest = structures.remaining();
            let ghost log = visitor.log();
            match structures.next() {
                None => {
                    proof {
                        crate::walk::lemma_handing_ends(walk, rest, base, log);
                    }
                    return Ok(());
                },
                Some(Err(error)) => {
                    proof {
                        crate::walk::lemma_handing_ends(walk, rest, base, log);
                    }
                    return Err(error);
                },
                Some(Ok(structure)) => {
                    let returned = visitor.visit(structure);
                    proof {
                        crate::walk::lemma_handing_goes_on(walk, rest, base, log, returned);
                    }
                    if returned.is_err() {
                        return returned;
                    }
                },
            }
        }
    }

    /// Hands the structures of the table to `f`.
    pub fn for_each_structure<F>(self, f: F) -> (r: Result<(), DmarError>) where
        F: Fn(DmarStructure<'a>) -> Result<(), DmarError>,

        requires
            self.wf(),
            forall|structure: DmarStructure<'a>| call_requires(f, (structure,)),
        ensures
            crate::walk::visited(structure_outcome(f), self.spec_structures(), r),
    {
        let mut visitor = Visits::new(f);
        let ghost start = visitor;
        let r = self.visit_structures(&mut visitor);
        proof {
            visitor.lemma_calls(start, f);
            assert(visitor.log().skip(0) =~= visitor.log());
            crate::walk::law_handed_records_are_visited(
                structure_outcome(f),
                self.spec_structures(),
                visitor.log(),
                r,
            );
        }
        r
    }

    /// Hands the hardware units of the table to `f`, with the width of host
    /// addresses.
    pub fn for_each_drhd<F>(self, f: F) -> (r: Result<(), DmarError>) where
        F: Fn(u8, DmarDrhd) -> Result<(), DmarError>,

        requires
            self.wf(),
            forall|host_width: u8, unit: DmarDrhd| call_requires(f, (host_width, unit)),
        ensures
            crate::walk::visited(drhd_outcome(f, self@[36]), self.spec_structures(), r),
    {
        let host_width = match self.host_address_width() {
            Ok(host_width) => host_width,
            Err(error) => return Err(error),
        };
        let ghost outcome = drhd_outcome(f, host_width);
        let on_structure = |structure: DmarStructure<'a>| -> (r: Result<(), DmarError>)
            ensures
                outcome(structure@, r),
            {
                match structure {
                    DmarStructure::Drhd(unit) => f(host_width, unit),
                    _ => Ok(()),
                }
            };
        let returned = self.for_each_structure(on_structure);
        proof {
            crate::walk::lemma_visited_weaken(
                structure_outcome(on_structure),
                outcome,
                self.spec_structures(),
                returned,
            );
        }
        returned
    }

    /// Hands the reserved memory regions of the table to `f`.
    pub fn for_each_rmrr<F>(self, f: F) -> (r: Result<(), DmarError>) where
        F: Fn(DmarRmrr) -> Result<(), DmarError>,

        requires
            self.wf(),
            forall|region: DmarRmrr| call_requires(f, (region,)),
        ensures
            crate::walk::visited(rmrr_outcome(f), self.spec_structures(), r),
    {
        let ghost outcome = rmrr_outcome(f);
        let on_structure = |structure: DmarStructure<'a>| -> (r: Result<(), DmarError>)
            ensures
                outcome(structure@, r),
            {
                match structure {
                    DmarStructure::Rmrr(region) => f(region),
                    _ => Ok(()),
                }
            };
        let returned = self.for_each_structure(on_structure);
        proof {
            crate::walk::lemma_visited_weaken(
                structure_outcome(on_structure),
                outcome,
                self.spec_structures(),
                returned,
            );
        }
        returned
    }

    /// Hands the root port structures of the table to `f`.
    pub fn for_each_atsr<F>(self, f: F) -> (r: Result<(), DmarError>) where
        F: Fn(DmarAtsr) -> Result<(), DmarError>,

        requires
            self.wf(),
            forall|unit: DmarAtsr| call_requires(f, (unit,)),
        ensures
            crate::walk::visited(atsr_outcome(f), self.spec_structures(), r),
    {
        let ghost outcome = atsr_outcome(f);
        let on_structure = |structure: DmarStructure<'a>| -> (r: Result<(), DmarError>)
            ensures
                outcome(structure@, r),
            {
                match structure {
                    DmarStructure::Atsr(unit) => f(unit),
                    _ => Ok(()),
                }
            };
        let returned = self.for_each_structure(on_structure);
        proof {
            crate::walk::lemma_visited_weaken(
                structure_outcome(on_structure),
                outcome,
                self.spec_structures(),
                returned,
            );
        }
        returned
    }

    /// Hands the affinity structures of the table to `f`.
    pub fn for_each_rhsa<F>(self, f: F) -> (r: Result<(), DmarError>) where
        F: Fn(DmarRhsa) -> Result<(), DmarError>,

        requires
            self.wf(),
            forall|affinity: DmarRhsa| call_requires(f, (affinity,)),
        ensures
            crate::walk::visited(rhsa_outcome(f), self.spec_structures(), r),
    {
        let ghost outcome = rhsa_outcome(f);
        let on_structure = |structure: DmarStructure<'a>| -> (r: Result<(), DmarError>)
            ensures
                outcome(structure@, r),
            {
                match structure {
                    DmarStructure::Rhsa(affinity) => f(affinity),
                    _ => Ok(()),
                }
            };
        let returned = self.for_each_structure(on_structure);
        proof {
            crate::walk::lemma_visited_weaken(
                structure_outcome(on_structure),
                outcome,
                self.spec_structures(),
                returned,
            );
        }
        returned
    }

    /// Hands the translation cache structures of the table to `f`.
    pub fn for_each_satc<F>(self, f: F) -> (r: Result<(), DmarError>) where
        F: Fn(DmarSatc) -> Result<(), DmarError>,

        requires
            self.wf(),
            forall|unit: DmarSatc| call_requires(f, (unit,)),
        ensures
            crate::walk::visited(satc_outcome(f), self.spec_structures(), r),
    {
        let ghost outcome = satc_outcome(f);
        let on_structure = |structure: DmarStructure<'a>| -> (r: Result<(), DmarError>)
            ensures
                outcome(structure@, r),
            {
                match structure {
                    DmarStructure::Satc(unit) => f(unit),
                    _ => Ok(()),
                }
            };
        let returned = self.for_each_structure(on_structure);
        proof {
            crate::walk::lemma_visited_weaken(
                structure_outcome(on_structure),
                outcome,
                self.spec_structures(),
                returned,
            );
        }
        returned
    }

    /// Hands the device property structures of the table to `f`.
    pub fn for_each_sidp<F>(self, f: F) -> (r: Result<(), DmarError>) where
        F: Fn(DmarSidp) -> Result<(), DmarError>,

        requires
            self.wf(),
            forall|unit: DmarSidp| call_requires(f, (unit,)),
        ensures
            crate::walk::visited(sidp_outcome(f), self.spec_structures(), r),
    {
        let ghost outcome = sidp_outcome(f);
        let on_structure = |structure: DmarStructure<'a>| -> (r: Result<(), DmarError>)
            ensures
                outcome(structure@, r),
            {
                match structure {
                    DmarStructure::Sidp(unit) => f(unit),
                    _ => Ok(()),
                }
            };
        let returned = self.for_each_structure(on_structure);
        proof {
            crate::walk::lemma_visited_weaken(
                structure_outcome(on_structure),
                outcome,
                self.spec_structures(),
                returned,
            );
        }
        returned
    }

    /// Hands the name-space devices of the table to `f`.
    pub fn for_each_andd<F>(self, f: F) -> (r: Result<(), DmarError>) where
        F: Fn(DmarAndd<'a>) -> Result<(), DmarError>,

        requires
            self.wf(),
            forall|device: DmarAndd<'a>| call_requires(f, (device,)),
        ensures
            crate::walk::visited(andd_outcome(f), self.spec_structures(), r),
    {
        let ghost outcome = andd_outcome(f);
        let on_structure = |structure: DmarStructure<'a>| -> (r: Result<(), DmarError>)
            ensures
                outcome(structure@, r),
            {
                match structure {
                    DmarStructure::Andd(device) => f(device),
                    _ => Ok(()),
                }
            };
        let returned = self.for_each_structure(on_structure);
        proof {
            crate::walk::lemma_visited_weaken(
                structure_outcome(on_structure),
                outcome,
                self.spec_structures(),
                returned,
            );
        }
        returned
    }

    /// Hands the device scopes of a hardware unit of this table to `f`.
    pub fn for_each_drhd_device_scope<F>(self, unit: DmarDrhd, f: F) -> (r: Result<(), DmarError>) where
        F: Fn(DmarDeviceScope<'a>) -> Result<(), DmarError>,

        requires
            forall|scope: DmarDeviceScope<'a>| call_requires(f, (scope,)),
        ensures
            crate::walk::visited(
                scope_outcome(f),
                device_scopes(self@, unit.structure_offset as int, unit.length as int, 16),
                r,
            ),
    {
        self.for_each_device_scope(unit.structure_offset, DRHD_MIN_LENGTH, unit.length, f)
    }

    /// Hands the device scopes of a reserved memory region of this table to `f`.
    pub fn for_each_rmrr_device_scope<F>(self, region: DmarRmrr, f: F) -> (r: Result<(), DmarError>) where
        F: Fn(DmarDeviceScope<'a>) -> Result<(), DmarError>,

        requires
            forall|scope: DmarDeviceScope<'a>| call_requires(f, (scope,)),
        ensures
            crate::walk::visited(
                scope_outcome(f),
                device_scopes(self@, region.structure_offset as int, region.length as int, 24),
                r,
            ),
    {
        self.for_each_device_scope(region.structure_offset, RMRR_MIN_LENGTH, region.length, f)
    }

    /// Hands the device scopes of a root port structure of this table to `f`.
    pub fn for_each_atsr_device_scope<F>(self, unit: DmarAtsr, f: F) -> (r: Result<(), DmarError>) where
        F: Fn(DmarDeviceScope<'a>) -> Result<(), DmarError>,

        requires
            forall|scope: DmarDeviceScope<'a>| call_requires(f, (scope,)),
        ensures
            crate::walk::visited(
                scope_outcome(f),
                device_scopes(self@, unit.structure_offset as int, unit.length as int, 8),
                r,
            ),
    {
        self.for_each_device_scope(unit.structure_offset, ATSR_MIN_LENGTH, unit.length, f)
    }

    /// Hands the device scopes of a translation cache structure of this table to `f`.
    pub fn for_each_satc_device_scope<F>(self, unit: DmarSatc, f: F) -> (r: Result<(), DmarError>) where
        F: Fn(DmarDeviceScope<'a>) -> Result<(), DmarError>,

        requires
            forall|scope: DmarDeviceScope<'a>| call_requires(f, (scope,)),
        ensures
            crate::walk::visited(
                scope_outcome(f),
                device_scopes(self@, unit.structure_offset as int, unit.length as int, 8),
                r,
            ),
    {
        self.for_each_device_scope(unit.structure_offset, SATC_MIN_LENGTH, unit.length, f)
    }

    /// Hands the device scopes of a device property structure of this table to `f`.
    pub fn for_each_sidp_device_scope<F>(self, unit: DmarSidp, f: F) -> (r: Result<(), DmarError>) where
        F: Fn(DmarDeviceScope<'a>) -> Result<(), DmarError>,

        requires
            forall|scope: DmarDeviceScope<'a>| call_requires(f, (scope,)),
        ensures
            crate::walk::visited(
                scope_outcome(f),
                device_scopes(self@, unit.structure_offset as int, unit.length as int, 8),
                r,
            ),
    {
        self.for_each_device_scope(unit.structure_offset, SIDP_MIN_LENGTH, unit.length, f)
    }

}

/// Whether a structure holds device properties.
pub open spec fn is_sidp() -> spec_fn(Structure) -> bool {
    |structure: Structure| structure is Sidp
}

/// The proximity domain that a structure gives for a unit's registers.
pub open spec fn rhsa_domain(registers: MmioAddrRange) -> spec_fn(Structure) -> Option<u32> {
    |structure: Structure|
        match structure {
            Structure::Rhsa(affinity) => if affinity.registers.same_bounds(registers) {
                Some(affinity.proximity_domain)
            } else {
                None
            },
            _ => None,
        }
}

/// The name that a structure gives for a name-space device.
pub open spec fn andd_name(number: u8) -> spec_fn(Structure) -> Option<Seq<u8>> {
    |structure: Structure|
        match structure {
            Structure::Andd { acpi_device_number, object_name } => if acpi_device_number
                == number {
                Some(object_name)
            } else {
                None
            },
            _ => None,
        }
}

/// Whether a scope stands for the requester.
pub open spec fn scope_has(bdf: Bdf) -> spec_fn(Scope) -> bool {
    |scope: Scope| scope.requester matches Some(range) && range.has(bdf.0 as int)
}

/// Whether the requester of a scope is not known.
pub open spec fn scope_unresolved() -> spec_fn(Scope) -> bool {
    |scope: Scope| scope.requester is None
}

/// How a hardware unit relates to a requester: the unit remaps it, does not
/// remap it, or may remap it by a scope that the table does not resolve.
pub open spec fn unit_match(s: Seq<u8>, unit: DmarDrhd, requester: PciDevice) -> Result<
    DmarRequesterMatch,
    DmarError,
> {
    if unit.segment != requester.spec_segment() {
        Ok(DmarRequesterMatch::NotCovered)
    } else if unit.include_all {
        Ok(DmarRequesterMatch::Covered)
    } else {
        match device_scopes(s, unit.structure_offset as int, unit.length as int, 16).all() {
            Err(error) => Err(error),
            Ok(scopes) => Ok(
                if crate::walk::any(scopes, scope_has(requester.spec_bdf())) {
                    DmarRequesterMatch::Covered
                } else if crate::walk::any(scopes, scope_unresolved()) {
                    DmarRequesterMatch::Unresolved
                } else {
                    DmarRequesterMatch::NotCovered
                },
            ),
        }
    }
}

/// How the last unit with the given registers relates to a requester, where
/// `so_far` is the answer of the structures before.
pub open spec fn match_from(
    s: Seq<u8>,
    registers: MmioAddrRange,
    requester: PciDevice,
    walk: Walk<Structure, DmarError>,
    so_far: Option<DmarRequesterMatch>,
) -> Result<Option<DmarRequesterMatch>, DmarError>
    decreases walk.items.len(),
{
    if walk.items.len() == 0 {
        match walk.error {
            Some(error) => Err(error),
            None => Ok(so_far),
        }
    } else {
        match walk.items[0] {
            Structure::Drhd(unit) => if unit.registers.same_bounds(registers) {
                match unit_match(s, unit, requester) {
                    Ok(answer) => match_from(s, registers, requester, walk.rest(), Some(answer)),
                    Err(error) => Err(error),
                }
            } else {
                match_from(s, registers, requester, walk.rest(), so_far)
            },
            _ => match_from(s, registers, requester, walk.rest(), so_far),
        }
    }
}

/// Whether a translation cache structure asks for address translation
/// services of the requester.
pub open spec fn satc_requires(s: Seq<u8>, unit: DmarSatc, requester: PciDevice) -> Result<
    bool,
    DmarError,
> {
    if unit.segment != requester.spec_segment() || !unit.atc_required || !unit.has_device_scopes {
        Ok(false)
    } else {
        match device_scopes(s, unit.structure_offset as int, unit.length as int, 8).all() {
            Err(error) => Err(error),
            Ok(scopes) => Ok(crate::walk::any(scopes, scope_has(requester.spec_bdf()))),
        }
    }
}

/// Whether one of the structures asks for address translation services of the
/// requester, or one before did.
pub open spec fn ats_required_from(
    s: Seq<u8>,
    requester: PciDevice,
    walk: Walk<Structure, DmarError>,
    so_far: bool,
) -> Result<bool, DmarError>
    decreases walk.items.len(),
{
    if walk.items.len() == 0 {
        match walk.error {
            Some(error) => Err(error),
            None => Ok(so_far),
        }
    } else {
        match walk.items[0] {
            Structure::Satc(unit) => match satc_requires(s, unit, requester) {
                Ok(required) => ats_required_from(s, requester, walk.rest(), so_far || required),
                Err(error) => Err(error),
            },
            _ => ats_required_from(s, requester, walk.rest(), so_far),
        }
    }
}

/// What a search for the requesters of one structure has found so far.
pub struct RequesterScan {
    /// The structure has been seen.
    pub found: bool,
    /// One of its scopes is not resolved.
    pub unresolved: bool,
    /// The requesters of its other scopes.
    pub runs: Seq<BdfRange>,
}

impl RequesterScan {
    pub open spec fn start() -> Self {
        RequesterScan { found: false, unresolved: false, runs: Seq::empty() }
    }

    /// Adds the requester of a scope, for which there may be no room.
    pub open spec fn scope(self, scope: Scope) -> Result<Self, DmarError> {
        match scope.requester {
            None => Ok(RequesterScan { unresolved: true, ..self }),
            Some(range) => match crate::firm::pcie::with_range(
                self.runs,
                range,
                DMAR_REQUESTER_WINDOW_CAPACITY as int,
            ) {
                Some(runs) => Ok(RequesterScan { runs, ..self }),
                None => Err(DmarError::BdfRanges(BdfRangeSetError::Full)),
            },
        }
    }

    /// Adds the requesters of a list of scopes.
    pub open spec fn scopes(self, walk: Walk<Scope, DmarError>) -> Result<Self, DmarError>
        decreases walk.items.len(),
    {
        if walk.items.len() == 0 {
            match walk.error {
                Some(error) => Err(error),
                None => Ok(self),
            }
        } else {
            match self.scope(walk.items[0]) {
                Ok(after) => after.scopes(walk.rest()),
                Err(error) => Err(error),
            }
        }
    }

    /// Adds the requesters of a structure, where it is a unit with the given
    /// registers.
    pub open spec fn drhd(
        self,
        s: Seq<u8>,
        registers: MmioAddrRange,
        structure: Structure,
    ) -> Result<Self, DmarError> {
        match structure {
            Structure::Drhd(unit) => if !unit.registers.same_bounds(registers) {
                Ok(self)
            } else if unit.include_all {
                Ok(RequesterScan { found: true, ..self })
            } else {
                (RequesterScan { found: true, ..self }).scopes(
                    device_scopes(s, unit.structure_offset as int, unit.length as int, 16),
                )
            },
            _ => Ok(self),
        }
    }

    /// Adds the requesters of a structure, where it is the given reserved
    /// memory region.
    pub open spec fn rmrr(
        self,
        s: Seq<u8>,
        segment: u16,
        memory: PhysAddrRange,
        structure: Structure,
    ) -> Result<Self, DmarError> {
        match structure {
            Structure::Rmrr(region) => if region.segment != segment
                || !region.memory.same_bounds(memory) {
                Ok(self)
            } else {
                (RequesterScan { found: true, ..self }).scopes(
                    device_scopes(s, region.structure_offset as int, region.length as int, 24),
                )
            },
            _ => Ok(self),
        }
    }

    pub open spec fn drhds(
        self,
        s: Seq<u8>,
        registers: MmioAddrRange,
        walk: Walk<Structure, DmarError>,
    ) -> Result<Self, DmarError>
        decreases walk.items.len(),
    {
        if walk.items.len() == 0 {
            match walk.error {
                Some(error) => Err(error),
                None => Ok(self),
            }
        } else {
            match self.drhd(s, registers, walk.items[0]) {
                Ok(after) => after.drhds(s, registers, walk.rest()),
                Err(error) => Err(error),
            }
        }
    }

    pub open spec fn rmrrs(
        self,
        s: Seq<u8>,
        segment: u16,
        memory: PhysAddrRange,
        walk: Walk<Structure, DmarError>,
    ) -> Result<Self, DmarError>
        decreases walk.items.len(),
    {
        if walk.items.len() == 0 {
            match walk.error {
                Some(error) => Err(error),
                None => Ok(self),
            }
        } else {
            match self.rmrr(s, segment, memory, walk.items[0]) {
                Ok(after) => after.rmrrs(s, segment, memory, walk.rest()),
                Err(error) => Err(error),
            }
        }
    }

    /// The requesters, where all of them are known and there are any.
    pub open spec fn answer(self) -> Option<Seq<BdfRange>> {
        if !self.found || self.unresolved || self.runs.len() == 0 {
            None
        } else {
            Some(self.runs)
        }
    }
}

/// Whether a structure is a unit with the given registers, one of whose scopes
/// stands for the requester.
pub open spec fn drhd_names(s: Seq<u8>, registers: MmioAddrRange, bdf: Bdf) -> spec_fn(
    Structure,
) -> bool {
    |structure: Structure|
        match structure {
            Structure::Drhd(unit) => unit.registers.same_bounds(registers) && !unit.include_all
                && crate::walk::any(
                device_scopes(s, unit.structure_offset as int, unit.length as int, 16).items,
                scope_has(bdf),
            ),
            _ => false,
        }
}

/// Whether a structure is the given reserved memory region, one of whose scopes
/// stands for the requester.
pub open spec fn rmrr_names(s: Seq<u8>, segment: u16, memory: PhysAddrRange, bdf: Bdf) -> spec_fn(
    Structure,
) -> bool {
    |structure: Structure|
        match structure {
            Structure::Rmrr(region) => region.segment == segment && region.memory.same_bounds(
                memory,
            ) && crate::walk::any(
                device_scopes(s, region.structure_offset as int, region.length as int, 24).items,
                scope_has(bdf),
            ),
            _ => false,
        }
}

/// The requesters of a list of scopes are runs of the requester space.
pub open spec fn scopes_wf(items: Seq<Scope>) -> bool {
    forall|i: int|
        0 <= i < items.len() ==> ((#[trigger] items[i]).requester matches Some(range)
            ==> range.wf())
}

proof fn lemma_scopes_wf(s: Seq<u8>, structure: int, length: int, offset: int)
    ensures
        scopes_wf(device_scopes(s, structure, length, offset).items),
    decreases length - offset,
{
    let at = structure + offset;
    let size = s[at + 1] as int;
    if offset < length && offset + 6 <= length && size >= 6 && offset + size <= length && size % 2
        == 0 {
        lemma_scopes_wf(s, structure, length, offset + size);
        let bdf = spec_single_requester(s.subrange(at + 6, at + size), s[at + 5]);
        if bdf is Ok {
            BdfRange::lemma_of_bounds(bdf->Ok_0.0 as int, bdf->Ok_0.0 + 1);
        }
        Walk::lemma_cons(
            scope_at(s, at, size),
            device_scopes(s, structure, length, offset + size),
        );
        let rest = device_scopes(s, structure, length, offset + size).items;
        let items = device_scopes(s, structure, length, offset).items;
        assert forall|i: int| 0 <= i < items.len() implies ((#[trigger] items[i]).requester matches
            Some(range) ==> range.wf()) by {
            if i > 0 {
                assert(items[i] == rest[i - 1]);
            }
        }
    }
}

proof fn lemma_scopes_add_what_they_name(
    scan: RequesterScan,
    walk: Walk<Scope, DmarError>,
    bdf: Bdf,
)
    requires
        crate::firm::pcie::canonical(scan.runs),
        scan.runs.len() <= DMAR_REQUESTER_WINDOW_CAPACITY,
        scopes_wf(walk.items),
        scan.scopes(walk) is Ok,
    ensures
        ({
            let after = scan.scopes(walk)->Ok_0;
            &&& crate::firm::pcie::canonical(after.runs)
            &&& after.runs.len() <= DMAR_REQUESTER_WINDOW_CAPACITY
            &&& after.found == scan.found
            &&& after.unresolved == (scan.unresolved || crate::walk::any(
                walk.items,
                scope_unresolved(),
            ))
            &&& crate::firm::pcie::covered(after.runs, bdf.0 as int) == (
            crate::firm::pcie::covered(scan.runs, bdf.0 as int) || crate::walk::any(
                walk.items,
                scope_has(bdf),
            ))
        }),
    decreases walk.items.len(),
{
    if walk.items.len() > 0 {
        let scope = walk.items[0];
        let after = scan.scope(scope)->Ok_0;
        crate::walk::lemma_any_step(walk.items, scope_has(bdf));
        crate::walk::lemma_any_step(walk.items, scope_unresolved());
        if scope.requester is Some {
            crate::firm::pcie::law_adding_a_range_adds_its_identities(
                scan.runs,
                scope.requester->0,
                DMAR_REQUESTER_WINDOW_CAPACITY as int,
            );
        }
        assert(scope_has(bdf)(scope) == (scope.requester matches Some(range) && range.has(
            bdf.0 as int,
        )));
        assert(scope_unresolved()(scope) == (scope.requester is None));
        let rest = walk.rest();
        assert forall|i: int| 0 <= i < rest.items.len() implies ((
        #[trigger] rest.items[i]).requester matches Some(range) ==> range.wf()) by {
            assert(rest.items[i] == walk.items[i + 1]);
        }
        lemma_scopes_add_what_they_name(after, rest, bdf);
    }
}

proof fn lemma_drhds_add_what_they_name(
    scan: RequesterScan,
    s: Seq<u8>,
    registers: MmioAddrRange,
    walk: Walk<Structure, DmarError>,
    bdf: Bdf,
)
    requires
        crate::firm::pcie::canonical(scan.runs),
        scan.runs.len() <= DMAR_REQUESTER_WINDOW_CAPACITY,
        scan.drhds(s, registers, walk) is Ok,
    ensures
        ({
            let after = scan.drhds(s, registers, walk)->Ok_0;
            &&& crate::firm::pcie::canonical(after.runs)
            &&& crate::firm::pcie::covered(after.runs, bdf.0 as int) == (
            crate::firm::pcie::covered(scan.runs, bdf.0 as int) || crate::walk::any(
                walk.items,
                drhd_names(s, registers, bdf),
            ))
        }),
    decreases walk.items.len(),
{
    if walk.items.len() > 0 {
        let after = scan.drhd(s, registers, walk.items[0])->Ok_0;
        crate::walk::lemma_any_step(walk.items, drhd_names(s, registers, bdf));
        match walk.items[0] {
            Structure::Drhd(unit) => {
                if unit.registers.same_bounds(registers) && !unit.include_all {
                    lemma_scopes_wf(s, unit.structure_offset as int, unit.length as int, 16);
                    lemma_scopes_add_what_they_name(
                        RequesterScan { found: true, ..scan },
                        device_scopes(s, unit.structure_offset as int, unit.length as int, 16),
                        bdf,
                    );
                }
            },
            _ => {},
        }
        lemma_drhds_add_what_they_name(after, s, registers, walk.rest(), bdf);
    }
}

proof fn lemma_rmrrs_add_what_they_name(
    scan: RequesterScan,
    s: Seq<u8>,
    segment: u16,
    memory: PhysAddrRange,
    walk: Walk<Structure, DmarError>,
    bdf: Bdf,
)
    requires
        crate::firm::pcie::canonical(scan.runs),
        scan.runs.len() <= DMAR_REQUESTER_WINDOW_CAPACITY,
        scan.rmrrs(s, segment, memory, walk) is Ok,
    ensures
        ({
            let after = scan.rmrrs(s, segment, memory, walk)->Ok_0;
            &&& crate::firm::pcie::canonical(after.runs)
            &&& crate::firm::pcie::covered(after.runs, bdf.0 as int) == (
            crate::firm::pcie::covered(scan.runs, bdf.0 as int) || crate::walk::any(
                walk.items,
                rmrr_names(s, segment, memory, bdf),
            ))
        }),
    decreases walk.items.len(),
{
    if walk.items.len() > 0 {
        let after = scan.rmrr(s, segment, memory, walk.items[0])->Ok_0;
        crate::walk::lemma_any_step(walk.items, rmrr_names(s, segment, memory, bdf));
        match walk.items[0] {
            Structure::Rmrr(region) => {
                if region.segment == segment && region.memory.same_bounds(memory) {
                    lemma_scopes_wf(s, region.structure_offset as int, region.length as int, 24);
                    lemma_scopes_add_what_they_name(
                        RequesterScan { found: true, ..scan },
                        device_scopes(s, region.structure_offset as int, region.length as int, 24),
                        bdf,
                    );
                }
            },
            _ => {},
        }
        lemma_rmrrs_add_what_they_name(after, s, segment, memory, walk.rest(), bdf);
    }
}

/// The runs that are returned for a unit are in order and apart, and cover
/// exactly the requesters that the scopes of the unit's structures stand for.
pub proof fn law_drhd_ranges_cover_exactly_the_named_requesters(
    s: Seq<u8>,
    registers: MmioAddrRange,
    bdf: Bdf,
)
    requires
        RequesterScan::start().drhds(s, registers, structures_from(s, 48)) matches Ok(scan)
            && scan.answer() is Some,
    ensures
        ({
            let runs = RequesterScan::start().drhds(
                s,
                registers,
                structures_from(s, 48),
            )->Ok_0.answer()->0;
            &&& crate::firm::pcie::canonical(runs)
            &&& crate::firm::pcie::covered(runs, bdf.0 as int) <==> crate::walk::any(
                structures_from(s, 48).items,
                drhd_names(s, registers, bdf),
            )
        }),
{
    lemma_drhds_add_what_they_name(
        RequesterScan::start(),
        s,
        registers,
        structures_from(s, 48),
        bdf,
    );
}

/// The runs that are returned for a reserved memory region are in order and
/// apart, and cover exactly the requesters that its scopes stand for.
pub proof fn law_rmrr_ranges_cover_exactly_the_named_requesters(
    s: Seq<u8>,
    segment: u16,
    memory: PhysAddrRange,
    bdf: Bdf,
)
    requires
        RequesterScan::start().rmrrs(s, segment, memory, structures_from(s, 48)) matches Ok(scan)
            && scan.answer() is Some,
    ensures
        ({
            let runs = RequesterScan::start().rmrrs(
                s,
                segment,
                memory,
                structures_from(s, 48),
            )->Ok_0.answer()->0;
            &&& crate::firm::pcie::canonical(runs)
            &&& crate::firm::pcie::covered(runs, bdf.0 as int) <==> crate::walk::any(
                structures_from(s, 48).items,
                rmrr_names(s, segment, memory, bdf),
            )
        }),
{
    lemma_rmrrs_add_what_they_name(
        RequesterScan::start(),
        s,
        segment,
        memory,
        structures_from(s, 48),
        bdf,
    );
}

/// How one unit relates to a requester of its segment agrees with the runs that
/// its scopes make: it remaps the requester where one of the runs holds it, and
/// leaves the matter open where the requester is in none of them and a scope is
/// not resolved.
pub proof fn law_unit_match_agrees_with_its_ranges(
    s: Seq<u8>,
    unit: DmarDrhd,
    requester: PciDevice,
)
    requires
        unit.segment == requester.spec_segment(),
        !unit.include_all,
        RequesterScan::start().scopes(
            device_scopes(s, unit.structure_offset as int, unit.length as int, 16),
        ) is Ok,
    ensures
        ({
            let scan = RequesterScan::start().scopes(
                device_scopes(s, unit.structure_offset as int, unit.length as int, 16),
            )->Ok_0;
            unit_match(s, unit, requester) == Ok::<DmarRequesterMatch, DmarError>(
                if crate::firm::pcie::covered(scan.runs, requester.spec_bdf().0 as int) {
                    DmarRequesterMatch::Covered
                } else if scan.unresolved {
                    DmarRequesterMatch::Unresolved
                } else {
                    DmarRequesterMatch::NotCovered
                },
            )
        }),
{
    let walk = device_scopes(s, unit.structure_offset as int, unit.length as int, 16);
    lemma_scopes_wf(s, unit.structure_offset as int, unit.length as int, 16);
    lemma_scopes_add_what_they_name(RequesterScan::start(), walk, requester.spec_bdf());
    lemma_scopes_error(RequesterScan::start(), walk);
}

/// A scan that ends well has read the whole list.
proof fn lemma_scopes_error(scan: RequesterScan, walk: Walk<Scope, DmarError>)
    requires
        scan.scopes(walk) is Ok,
    ensures
        walk.error is None,
    decreases walk.items.len(),
{
    if walk.items.len() > 0 {
        lemma_scopes_error(scan.scope(walk.items[0])->Ok_0, walk.rest());
    }
}

impl<'a> DmarTable<'a> {
    /// Whether the table holds device properties.
    pub open spec fn spec_has_sidp(self) -> Result<bool, DmarError> {
        match self.spec_structures().all() {
            Err(error) => Err(error),
            Ok(structures) => Ok(crate::walk::any(structures, is_sidp())),
        }
    }

    pub fn has_sidp(self) -> (r: Result<bool, DmarError>)
        requires
            self.wf(),
        ensures
            r == self.spec_has_sidp(),
    {
        let mut structures = self.structures();
        let mut found = false;
        let ghost walk = self.spec_structures();
        loop
            invariant
                walk == self.spec_structures(),
                structures.wf(),
                walk.error == structures.remaining().error,
                crate::walk::any(walk.items, is_sidp()) == (found || crate::walk::any(
                    structures.remaining().items,
                    is_sidp(),
                )),
            decreases structures.table_bytes().len() - structures.position(),
        {
            proof {
                if structures.remaining().items.len() > 0 {
                    crate::walk::lemma_any_step(structures.remaining().items, is_sidp());
                }
            }
            match structures.next() {
                None => return Ok(found),
                Some(Err(error)) => return Err(error),
                Some(Ok(DmarStructure::Sidp(_))) => found = true,
                Some(Ok(_)) => {},
            }
        }
    }

    /// The proximity domain of the unit with the given registers, as the last
    /// affinity structure for it says.
    pub fn rhsa_proximity_domain_for_registers(self, registers: MmioAddrRange) -> (r: Result<
        Option<u32>,
        DmarError,
    >)
        requires
            self.wf(),
        ensures
            r == (match self.spec_structures().all() {
                Err(error) => Err(error),
                Ok(structures) => Ok(crate::walk::last_some(structures, rhsa_domain(registers))),
            }),
    {
        let mut structures = self.structures();
        let mut proximity_domain: Option<u32> = None;
        let ghost walk = self.spec_structures();
        let ghost pick = rhsa_domain(registers);
        loop
            invariant
                walk == self.spec_structures(),
                pick == rhsa_domain(registers),
                structures.wf(),
                walk.error == structures.remaining().error,
                crate::walk::last_some(walk.items, pick) == (match crate::walk::last_some(
                    structures.remaining().items,
                    pick,
                ) {
                    Some(domain) => Some(domain),
                    None => proximity_domain,
                }),
            decreases structures.table_bytes().len() - structures.position(),
        {
            proof {
                if structures.remaining().items.len() > 0 {
                    crate::walk::lemma_last_some_step(structures.remaining().items, pick);
                }
            }
            match structures.next() {
                None => return Ok(proximity_domain),
                Some(Err(error)) => return Err(error),
                Some(Ok(DmarStructure::Rhsa(affinity))) => {
                    if affinity.registers.has_bounds_of(registers) {
                        proximity_domain = Some(affinity.proximity_domain);
                    }
                },
                Some(Ok(_)) => {},
            }
        }
    }

    /// The name of a name-space device, as the last structure for it says.
    pub fn andd_name_for_device_number(self, acpi_device_number: u8) -> (r: Result<
        Option<&'a [u8]>,
        DmarError,
    >)
        requires
            self.wf(),
        ensures
            match self.spec_structures().all() {
                Err(error) => r == Err::<Option<&'a [u8]>, _>(error),
                Ok(structures) => match crate::walk::last_some(
                    structures,
                    andd_name(acpi_device_number),
                ) {
                    Some(name) => r matches Ok(Some(found)) && found@ == name,
                    None => r == Ok::<_, DmarError>(None::<&'a [u8]>),
                },
            },
    {
        let mut structures = self.structures();
        let mut object_name: Option<&'a [u8]> = None;
        let ghost walk = self.spec_structures();
        let ghost pick = andd_name(acpi_device_number);
        loop
            invariant
                walk == self.spec_structures(),
                pick == andd_name(acpi_device_number),
                structures.wf(),
                walk.error == structures.remaining().error,
                crate::walk::last_some(walk.items, pick) == (match crate::walk::last_some(
                    structures.remaining().items,
                    pick,
                ) {
                    Some(name) => Some(name),
                    None => match object_name {
                        Some(name) => Some(name@),
                        None => None,
                    },
                }),
            decreases structures.table_bytes().len() - structures.position(),
        {
            proof {
                if structures.remaining().items.len() > 0 {
                    crate::walk::lemma_last_some_step(structures.remaining().items, pick);
                }
            }
            match structures.next() {
                None => return Ok(object_name),
                Some(Err(error)) => return Err(error),
                Some(Ok(DmarStructure::Andd(device))) => {
                    if device.acpi_device_number == acpi_device_number {
                        object_name = Some(device.object_name);
                    }
                },
                Some(Ok(_)) => {},
            }
        }
    }

    /// Whether one of the scopes stands for the requester, and whether one of
    /// them is not resolved.
    fn search_scopes(
        self,
        structure_offset: usize,
        scopes_offset: usize,
        structure_length: usize,
        bdf: Bdf,
    ) -> (r: Result<(bool, bool), DmarError>)
        ensures
            r == (match device_scopes(
                self@,
                structure_offset as int,
                structure_length as int,
                scopes_offset as int,
            ).all() {
                Err(error) => Err(error),
                Ok(scopes) => Ok(
                    (
                        crate::walk::any(scopes, scope_has(bdf)),
                        crate::walk::any(scopes, scope_unresolved()),
                    ),
                ),
            }),
    {
        let mut scopes = DmarDeviceScopes::new(
            self.sdt,
            structure_offset,
            scopes_offset,
            structure_length,
        );
        let mut exact = false;
        let mut unresolved = false;
        let ghost walk = scopes.remaining();
        let ghost has = scope_has(bdf);
        let ghost open_scope = scope_unresolved();
        loop
            invariant
                walk == device_scopes(
                    self@,
                    structure_offset as int,
                    structure_length as int,
                    scopes_offset as int,
                ),
                has == scope_has(bdf),
                open_scope == scope_unresolved(),
                walk.error == scopes.remaining().error,
                crate::walk::any(walk.items, has) == (exact || crate::walk::any(
                    scopes.remaining().items,
                    has,
                )),
                crate::walk::any(walk.items, open_scope) == (unresolved || crate::walk::any(
                    scopes.remaining().items,
                    open_scope,
                )),
            decreases scopes.bytes_left(),
        {
            proof {
                if scopes.remaining().items.len() > 0 {
                    crate::walk::lemma_any_step(scopes.remaining().items, has);
                    crate::walk::lemma_any_step(scopes.remaining().items, open_scope);
                }
            }
            match scopes.next() {
                None => return Ok((exact, unresolved)),
                Some(Err(error)) => return Err(error),
                Some(Ok(scope)) => match scope.requester {
                    Some(range) => {
                        if range.contains(bdf) {
                            exact = true;
                        }
                    },
                    None => unresolved = true,
                },
            }
        }
    }

    /// How the unit with the given registers relates to a requester: `None`
    /// where there is no such unit.
    pub fn drhd_requester_match(self, registers: MmioAddrRange, requester: PciDevice) -> (r: Result<
        Option<DmarRequesterMatch>,
        DmarError,
    >)
        requires
            self.wf(),
        ensures
            r == match_from(self@, registers, requester, self.spec_structures(), None),
    {
        let mut structures = self.structures();
        let mut answer: Option<DmarRequesterMatch> = None;
        let ghost total = match_from(self@, registers, requester, self.spec_structures(), None);
        loop
            invariant
                total == match_from(self@, registers, requester, self.spec_structures(), None),
                structures.wf(),
                structures.table_bytes() == self@,
                total == match_from(self@, registers, requester, structures.remaining(), answer),
            decreases structures.table_bytes().len() - structures.position(),
        {
            match structures.next() {
                None => return Ok(answer),
                Some(Err(error)) => return Err(error),
                Some(Ok(DmarStructure::Drhd(unit))) => {
                    if unit.registers.has_bounds_of(registers) {
                        match self.match_unit(unit, requester) {
                            Ok(found) => answer = Some(found),
                            Err(error) => return Err(error),
                        }
                    }
                },
                Some(Ok(_)) => {},
            }
        }
    }

    /// How a unit of this table relates to a requester.
    fn match_unit(self, unit: DmarDrhd, requester: PciDevice) -> (r: Result<
        DmarRequesterMatch,
        DmarError,
    >)
        ensures
            r == unit_match(self@, unit, requester),
    {
        if unit.segment != requester.segment() {
            return Ok(DmarRequesterMatch::NotCovered);
        }
        if unit.include_all {
            return Ok(DmarRequesterMatch::Covered);
        }
        match self.search_scopes(
            unit.structure_offset,
            DRHD_MIN_LENGTH,
            unit.length,
            requester.bdf(),
        ) {
            Err(error) => Err(error),
            Ok((exact, unresolved)) => Ok(
                if exact {
                    DmarRequesterMatch::Covered
                } else if unresolved {
                    DmarRequesterMatch::Unresolved
                } else {
                    DmarRequesterMatch::NotCovered
                },
            ),
        }
    }

    /// Whether the platform asks for address translation services of a
    /// requester. Where the table holds device properties, these decide in
    /// place of the translation cache structures.
    pub fn satc_device_ats_required(self, requester: PciDevice) -> (r: Result<bool, DmarError>)
        requires
            self.wf(),
        ensures
            r == (match self.spec_has_sidp() {
                Err(error) => Err(error),
                Ok(true) => Ok(false),
                Ok(false) => ats_required_from(self@, requester, self.spec_structures(), false),
            }),
    {
        match self.has_sidp() {
            Err(error) => return Err(error),
            Ok(true) => return Ok(false),
            Ok(false) => {},
        }
        let mut structures = self.structures();
        let mut required = false;
        let ghost total = ats_required_from(self@, requester, self.spec_structures(), false);
        loop
            invariant
                self.spec_has_sidp() == Ok::<bool, DmarError>(false),
                total == ats_required_from(self@, requester, self.spec_structures(), false),
                structures.wf(),
                structures.table_bytes() == self@,
                total == ats_required_from(self@, requester, structures.remaining(), required),
            decreases structures.table_bytes().len() - structures.position(),
        {
            match structures.next() {
                None => return Ok(required),
                Some(Err(error)) => return Err(error),
                Some(Ok(DmarStructure::Satc(unit))) => {
                    if unit.segment == requester.segment() && unit.atc_required
                        && unit.has_device_scopes {
                        match self.search_scopes(
                            unit.structure_offset,
                            SATC_MIN_LENGTH,
                            unit.length,
                            requester.bdf(),
                        ) {
                            Ok((exact, _)) => required = required || exact,
                            Err(error) => return Err(error),
                        }
                    }
                },
                Some(Ok(_)) => {},
            }
        }
    }

    /// Adds the requesters of the scopes of one structure to `ranges`, and
    /// tells whether a scope so far is not resolved.
    fn scan_scopes(
        self,
        structure_offset: usize,
        scopes_offset: usize,
        structure_length: usize,
        unresolved: bool,
        ranges: &mut DmarBdfRangeSet,
    ) -> (r: Result<bool, DmarError>)
        requires
            old(ranges).wf(),
        ensures
            final(ranges).wf(),
            match (RequesterScan { found: true, unresolved, runs: old(ranges)@ }).scopes(
                device_scopes(
                    self@,
                    structure_offset as int,
                    structure_length as int,
                    scopes_offset as int,
                ),
            ) {
                Ok(scan) => r matches Ok(open_scope) && scan == (RequesterScan {
                    found: true,
                    unresolved: open_scope,
                    runs: final(ranges)@,
                }),
                Err(error) => r == Err::<bool, _>(error),
            },
    {
        let mut open_scope = unresolved;
        let mut scopes = DmarDeviceScopes::new(
            self.sdt,
            structure_offset,
            scopes_offset,
            structure_length,
        );
        let ghost walk = scopes.remaining();
        loop
            invariant
                walk == device_scopes(
                    self@,
                    structure_offset as int,
                    structure_length as int,
                    scopes_offset as int,
                ),
                ranges.wf(),
                (RequesterScan { found: true, unresolved, runs: old(ranges)@ }).scopes(walk)
                    == (RequesterScan { found: true, unresolved: open_scope, runs: ranges@ }).scopes(
                    scopes.remaining(),
                ),
            decreases scopes.bytes_left(),
        {
            match scopes.next() {
                None => return Ok(open_scope),
                Some(Err(error)) => return Err(error),
                Some(Ok(scope)) => match scope.requester {
                    Some(range) => {
                        if let Err(error) = ranges.insert::<DmarError>(range) {
                            return Err(error);
                        }
                    },
                    None => open_scope = true,
                },
            }
        }
    }

    /// The requesters that the unit with the given registers names: `None`
    /// where there is no such unit, where one of its scopes is not resolved,
    /// or where it names none.
    pub fn drhd_bdf_ranges(self, registers: MmioAddrRange) -> (r: Result<
        Option<DmarBdfRangeSet>,
        DmarError,
    >)
        requires
            self.wf(),
        ensures
            match RequesterScan::start().drhds(self@, registers, self.spec_structures()) {
                Err(error) => r == Err::<Option<DmarBdfRangeSet>, _>(error),
                Ok(scan) => match scan.answer() {
                    None => r == Ok::<_, DmarError>(None::<DmarBdfRangeSet>),
                    Some(runs) => r matches Ok(Some(set)) && set.wf() && set@ == runs,
                },
            },
    {
        let mut found = false;
        let mut unresolved = false;
        let mut ranges = DmarBdfRangeSet::empty();
        let mut structures = self.structures();
        let ghost total = RequesterScan::start().drhds(self@, registers, self.spec_structures());
        loop
            invariant_except_break
                self.wf(),
                structures.wf(),
                structures.table_bytes() == self@,
                total == RequesterScan::start().drhds(self@, registers, self.spec_structures()),
                total == (RequesterScan { found, unresolved, runs: ranges@ }).drhds(
                    self@,
                    registers,
                    structures.remaining(),
                ),
            invariant
                ranges.wf(),
            ensures
                total == Ok::<_, DmarError>(RequesterScan { found, unresolved, runs: ranges@ }),
            decreases structures.table_bytes().len() - structures.position(),
        {
            match structures.next() {
                None => break ,
                Some(Err(error)) => return Err(error),
                Some(Ok(DmarStructure::Drhd(unit))) => {
                    if unit.registers.has_bounds_of(registers) {
                        found = true;
                        if !unit.include_all {
                            match self.scan_scopes(
                                unit.structure_offset,
                                DRHD_MIN_LENGTH,
                                unit.length,
                                unresolved,
                                &mut ranges,
                            ) {
                                Ok(open_scope) => unresolved = open_scope,
                                Err(error) => return Err(error),
                            }
                        }
                    }
                },
                Some(Ok(_)) => {},
            }
        }
        if !found || unresolved || ranges.is_empty() {
            return Ok(None);
        }
        Ok(Some(ranges))
    }

    /// The requesters that reach a reserved memory region: `None` where there
    /// is no such region, where one of its scopes is not resolved, or where it
    /// names none.
    pub fn rmrr_bdf_ranges(self, segment: u16, memory: PhysAddrRange) -> (r: Result<
        Option<DmarBdfRangeSet>,
        DmarError,
    >)
        requires
            self.wf(),
        ensures
            match RequesterScan::start().rmrrs(self@, segment, memory, self.spec_structures()) {
                Err(error) => r == Err::<Option<DmarBdfRangeSet>, _>(error),
                Ok(scan) => match scan.answer() {
                    None => r == Ok::<_, DmarError>(None::<DmarBdfRangeSet>),
                    Some(runs) => r matches Ok(Some(set)) && set.wf() && set@ == runs,
                },
            },
    {
        let mut found = false;
        let mut unresolved = false;
        let mut ranges = DmarBdfRangeSet::empty();
        let mut structures = self.structures();
        let ghost total = RequesterScan::start().rmrrs(
            self@,
            segment,
            memory,
            self.spec_structures(),
        );
        loop
            invariant_except_break
                self.wf(),
                structures.wf(),
                structures.table_bytes() == self@,
                total == RequesterScan::start().rmrrs(
                    self@,
                    segment,
                    memory,
                    self.spec_structures(),
                ),
                total == (RequesterScan { found, unresolved, runs: ranges@ }).rmrrs(
                    self@,
                    segment,
                    memory,
                    structures.remaining(),
                ),
            invariant
                ranges.wf(),
            ensures
                total == Ok::<_, DmarError>(RequesterScan { found, unresolved, runs: ranges@ }),
            decreases structures.table_bytes().len() - structures.position(),
        {
            match structures.next() {
                None => break ,
                Some(Err(error)) => return Err(error),
                Some(Ok(DmarStructure::Rmrr(region))) => {
                    if region.segment == segment && region.memory.has_bounds_of(memory) {
                        found = true;
                        match self.scan_scopes(
                            region.structure_offset,
                            RMRR_MIN_LENGTH,
                            region.length,
                            unresolved,
                            &mut ranges,
                        ) {
                            Ok(open_scope) => unresolved = open_scope,
                            Err(error) => return Err(error),
                        }
                    }
                },
                Some(Ok(_)) => {},
            }
        }
        if !found || unresolved || ranges.is_empty() {
            return Ok(None);
        }
        Ok(Some(ranges))
    }
}

} // verus!
