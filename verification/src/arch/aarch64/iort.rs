//! ARM IORT firmware table parsing.

use vstd::prelude::*;
use vstd::std_specs::convert::FromSpecImpl;

use crate::addr::{mmio_window_at, AddrRange, IoAddr, MmioAddr, MmioAddrRange, PhysAddr, PhysAddrRange};
use crate::bytes::{get_u16, get_u32, get_u64};
use crate::firm::acpi::{table_bytes, AcpiError, SdtFault, Signature};
use crate::firm::pcie::{Bdf, BdfRange, BdfRangeSet, BdfRangeSetError, PciDevice};
use crate::memory::PagingError;
use crate::walk::{Visitor, Visits, Walk};

verus! {

const IORT_NODE_COUNT_OFFSET: usize = 36;

const IORT_NODE_OFFSET_OFFSET: usize = 40;

const IORT_TABLE_MIN_LENGTH: usize = 48;

const IORT_NODE_HEADER_LENGTH: usize = 16;

const IORT_ID_MAPPING_LENGTH: usize = 20;

const ITS_GROUP_MIN_LENGTH: usize = 20;

const NAMED_COMPONENT_MIN_LENGTH: usize = 29;

const ROOT_COMPLEX_MIN_LENGTH: usize = 35;

const SMMU_MIN_LENGTH: usize = 60;

const SMMU_V3_MIN_LENGTH: usize = 68;

const PMCG_MIN_LENGTH: usize = 40;

const RMR_MIN_LENGTH: usize = 28;

const RMR_DESCRIPTOR_LENGTH: usize = 20;

pub const IORT_REQUESTER_WINDOW_CAPACITY: usize = 16;

pub type IortBdfRangeSet = BdfRangeSet<IORT_REQUESTER_WINDOW_CAPACITY>;

#[derive(Clone, Copy, Debug, PartialEq, Eq)]
pub enum IortError {
    Acpi(AcpiError),
    BdfRanges(BdfRangeSetError),
    Mapping(PagingError),
    Malformed(&'static str),
}

impl From<AcpiError> for IortError {
    fn from(value: AcpiError) -> (r: Self) {
        IortError::Acpi(value)
    }
}

impl FromSpecImpl<AcpiError> for IortError {
    open spec fn obeys_from_spec() -> bool {
        true
    }

    open spec fn from_spec(value: AcpiError) -> Self {
        IortError::Acpi(value)
    }
}

impl From<BdfRangeSetError> for IortError {
    fn from(value: BdfRangeSetError) -> (r: Self) {
        IortError::BdfRanges(value)
    }
}

impl FromSpecImpl<BdfRangeSetError> for IortError {
    open spec fn obeys_from_spec() -> bool {
        true
    }

    open spec fn from_spec(value: BdfRangeSetError) -> Self {
        IortError::BdfRanges(value)
    }
}

impl From<PagingError> for IortError {
    fn from(value: PagingError) -> (r: Self) {
        IortError::Mapping(value)
    }
}

impl FromSpecImpl<PagingError> for IortError {
    open spec fn obeys_from_spec() -> bool {
        true
    }

    open spec fn from_spec(value: PagingError) -> Self {
        IortError::Mapping(value)
    }
}

#[derive(Clone, Copy, Debug, PartialEq, Eq)]
pub enum IortNode<'a> {
    ItsGroup(IortItsGroup),
    NamedComponent(IortNamedComponent<'a>),
    RootComplex(IortRootComplex),
    Smmu(IortSmmu),
    SmmuV3(IortSmmuV3),
    Pmcg(IortPmcg),
    ReservedMemory(IortReservedMemory),
    Unknown(IortUnknownNode),
}

/// A node with its bytes as a sequence.
pub enum Node {
    ItsGroup(IortItsGroup),
    NamedComponent {
        node_flags: u32,
        memory_properties: IortMemoryAccess,
        memory_address_limit: u8,
        device_name: Seq<u8>,
        header: IortNodeHeader,
    },
    RootComplex(IortRootComplex),
    Smmu(IortSmmu),
    SmmuV3(IortSmmuV3),
    Pmcg(IortPmcg),
    ReservedMemory(IortReservedMemory),
    Unknown(IortUnknownNode),
}

impl Node {
    pub open spec fn spec_header(self) -> IortNodeHeader {
        match self {
            Node::ItsGroup(node) => node.header,
            Node::NamedComponent { header, .. } => header,
            Node::RootComplex(node) => node.header,
            Node::Smmu(node) => node.header,
            Node::SmmuV3(node) => node.header,
            Node::Pmcg(node) => node.header,
            Node::ReservedMemory(node) => node.header,
            Node::Unknown(node) => node.header,
        }
    }
}

impl<'a> View for IortNode<'a> {
    type V = Node;

    open spec fn view(&self) -> Node {
        match *self {
            IortNode::ItsGroup(node) => Node::ItsGroup(node),
            IortNode::NamedComponent(node) => Node::NamedComponent {
                node_flags: node.node_flags,
                memory_properties: node.memory_properties,
                memory_address_limit: node.memory_address_limit,
                device_name: node.device_name@,
                header: node.header,
            },
            IortNode::RootComplex(node) => Node::RootComplex(node),
            IortNode::Smmu(node) => Node::Smmu(node),
            IortNode::SmmuV3(node) => Node::SmmuV3(node),
            IortNode::Pmcg(node) => Node::Pmcg(node),
            IortNode::ReservedMemory(node) => Node::ReservedMemory(node),
            IortNode::Unknown(node) => Node::Unknown(node),
        }
    }
}

impl<'a> IortNode<'a> {
    pub fn header(self) -> (r: IortNodeHeader)
        ensures
            r == self@.spec_header(),
    {
        match self {
            IortNode::ItsGroup(node) => node.header,
            IortNode::NamedComponent(node) => node.header,
            IortNode::RootComplex(node) => node.header,
            IortNode::Smmu(node) => node.header,
            IortNode::SmmuV3(node) => node.header,
            IortNode::Pmcg(node) => node.header,
            IortNode::ReservedMemory(node) => node.header,
            IortNode::Unknown(node) => node.header,
        }
    }
}

#[derive(Clone, Copy, Debug, PartialEq, Eq, Structural)]
pub struct IortNodeHeader {
    pub kind: IortNodeKind,
    pub revision: u8,
    pub identifier: u32,
    pub mapping_count: u32,
    pub mapping_offset: u32,
    pub offset: usize,
    pub length: usize,
}

impl IortNodeHeader {
    /// The end of the node is an offset.
    pub open spec fn wf(self) -> bool {
        self.offset + self.length <= usize::MAX
    }

    pub fn end_offset(self) -> (r: usize)
        requires
            self.wf(),
        ensures
            r == self.offset + self.length,
    {
        self.offset + self.length
    }
}

#[derive(Clone, Copy, Debug, PartialEq, Eq, Structural)]
pub enum IortNodeKind {
    ItsGroup,
    NamedComponent,
    RootComplex,
    Smmu,
    SmmuV3,
    Pmcg,
    ReservedMemory,
    Unknown(u8),
}

impl IortNodeKind {
    pub open spec fn spec_from_raw(raw: u8) -> Self {
        if raw == 0 {
            IortNodeKind::ItsGroup
        } else if raw == 1 {
            IortNodeKind::NamedComponent
        } else if raw == 2 {
            IortNodeKind::RootComplex
        } else if raw == 3 {
            IortNodeKind::Smmu
        } else if raw == 4 {
            IortNodeKind::SmmuV3
        } else if raw == 5 {
            IortNodeKind::Pmcg
        } else if raw == 6 {
            IortNodeKind::ReservedMemory
        } else {
            IortNodeKind::Unknown(raw)
        }
    }

    fn from_raw(raw: u8) -> (r: Self)
        ensures
            r == Self::spec_from_raw(raw),
    {
        match raw {
            0 => IortNodeKind::ItsGroup,
            1 => IortNodeKind::NamedComponent,
            2 => IortNodeKind::RootComplex,
            3 => IortNodeKind::Smmu,
            4 => IortNodeKind::SmmuV3,
            5 => IortNodeKind::Pmcg,
            6 => IortNodeKind::ReservedMemory,
            other => IortNodeKind::Unknown(other),
        }
    }

    /// Whether nodes of this kind may have mappings that map all identifiers
    /// to one.
    pub open spec fn maps_singly(self) -> bool {
        self is NamedComponent || self is RootComplex || self is SmmuV3 || self is Pmcg
    }

    fn single_mapping_allowed(self) -> (r: bool)
        ensures
            r == self.maps_singly(),
    {
        match self {
            IortNodeKind::NamedComponent
            | IortNodeKind::RootComplex
            | IortNodeKind::SmmuV3
            | IortNodeKind::Pmcg => true,
            _ => false,
        }
    }
}

#[derive(Clone, Copy, Debug, PartialEq, Eq, Structural)]
pub enum IortRequesterMatch {
    Covered,
    NotCovered,
    Unresolved,
}

#[derive(Clone, Copy, Debug, PartialEq, Eq)]
pub struct IortIdTranslation<'a> {
    pub node: IortNode<'a>,
    pub id: u32,
}

/// Where one mapping leads: the identifier and the node that it goes to.
#[derive(Clone, Copy, Debug, PartialEq, Eq, Structural)]
pub struct IortSingleStepTranslation {
    pub id: u32,
    pub output_reference: u32,
}

#[derive(Clone, Copy, Debug, PartialEq, Eq, Structural)]
pub struct IortUnknownNode {
    pub kind: u8,
    pub header: IortNodeHeader,
}

#[derive(Clone, Copy, Debug, PartialEq, Eq, Structural)]
pub struct IortMemoryAccess {
    pub cache_coherency: u32,
    pub hints: u8,
    pub memory_flags: u8,
}

impl IortMemoryAccess {
    /// Bit 0 of the coherency attribute.
    pub fn is_coherent(self) -> (r: bool)
        ensures
            r == (self.cache_coherency % 2 == 1),
    {
        self.cache_coherency % 2 == 1
    }
}

#[derive(Clone, Copy, Debug, PartialEq, Eq, Structural)]
pub struct IortIdMapping {
    pub input_base: u32,
    pub id_count: u32,
    pub output_base: u32,
    pub output_reference: u32,
    pub flags: u32,
}

impl IortIdMapping {
    /// The mapping maps all identifiers to one.
    pub open spec fn single(self) -> bool {
        self.flags % 2 == 1
    }

    /// The requesters that the mapping maps, where they are requesters.
    pub open spec fn spec_input_bdf_range(self) -> Option<BdfRange> {
        if self.single() {
            Some(BdfRange::of(0, 0x1_0000))
        } else if self.input_base + self.id_count > 0xffff {
            None
        } else {
            Some(BdfRange::of(self.input_base as int, self.input_base + self.id_count + 1))
        }
    }

    /// The identifier that the mapping of a node of the given kind maps an
    /// identifier to.
    pub open spec fn spec_translate(self, kind: IortNodeKind, input_id: u32) -> Option<u32> {
        if self.single() {
            if kind.maps_singly() {
                Some(self.output_base)
            } else {
                None
            }
        } else if self.input_base + self.id_count > u32::MAX || input_id < self.input_base
            || input_id > self.input_base + self.id_count || self.output_base + (input_id
            - self.input_base) > u32::MAX {
            None
        } else {
            Some((self.output_base + (input_id - self.input_base)) as u32)
        }
    }

    /// Bit 0 of the flags.
    pub fn is_single_mapping(self) -> (r: bool)
        ensures
            r == self.single(),
    {
        self.flags % 2 == 1
    }

    pub fn input_bdf_range(self) -> (r: Result<Option<BdfRange>, IortError>)
        ensures
            r == Ok::<_, IortError>(self.spec_input_bdf_range()),
            r matches Ok(Some(range)) ==> range.wf(),
    {
        if self.is_single_mapping() {
            return match BdfRange::inclusive(Bdf::from_u16(0), Bdf::from_u16(u16::MAX)) {
                Ok(range) => Ok(Some(range)),
                Err(_) => Ok(None),
            };
        }
        let end = match self.input_base.checked_add(self.id_count) {
            Some(end) => end,
            None => return Ok(None),
        };
        if self.input_base > u16::MAX as u32 || end > u16::MAX as u32 {
            return Ok(None);
        }
        match BdfRange::inclusive(
            Bdf::from_u16(self.input_base as u16),
            Bdf::from_u16(end as u16),
        ) {
            Ok(range) => Ok(Some(range)),
            Err(_) => Err(IortError::Malformed("IORT requester ID range is reversed")),
        }
    }

    fn translate_for_node_kind(self, kind: IortNodeKind, input_id: u32) -> (r: Option<u32>)
        ensures
            r == self.spec_translate(kind, input_id),
    {
        if self.is_single_mapping() {
            return if kind.single_mapping_allowed() {
                Some(self.output_base)
            } else {
                None
            };
        }
        let end = match self.input_base.checked_add(self.id_count) {
            Some(end) => end,
            None => return None,
        };
        if input_id < self.input_base || input_id > end {
            return None;
        }
        self.output_base.checked_add(input_id - self.input_base)
    }
}

#[derive(Clone, Copy, Debug, PartialEq, Eq, Structural)]
pub struct IortItsGroup {
    pub its_count: u32,
    pub header: IortNodeHeader,
}

#[derive(Clone, Copy, Debug, PartialEq, Eq, Structural)]
pub struct IortItsIdentifier {
    pub identifier: u32,
}

#[derive(Clone, Copy, Debug, PartialEq, Eq)]
pub struct IortNamedComponent<'a> {
    pub node_flags: u32,
    pub memory_properties: IortMemoryAccess,
    pub memory_address_limit: u8,
    pub device_name: &'a [u8],
    pub header: IortNodeHeader,
}

#[derive(Clone, Copy, Debug, PartialEq, Eq, Structural)]
pub struct IortRootComplex {
    pub memory_properties: IortMemoryAccess,
    pub ats_attribute: u32,
    pub pci_segment_number: u32,
    pub memory_address_limit: u8,
    pub pasid_capabilities: u16,
    pub header: IortNodeHeader,
}

impl IortRootComplex {
    /// Bit 0 of the ATS attribute.
    pub fn ats_supported(self) -> (r: bool)
        ensures
            r == (self.ats_attribute % 2 == 1),
    {
        self.ats_attribute % 2 == 1
    }

    /// Bit 1 of the ATS attribute.
    pub fn pri_supported(self) -> (r: bool)
        ensures
            r == (self.ats_attribute / 2 % 2 == 1),
    {
        self.ats_attribute / 2 % 2 == 1
    }

    /// Bit 2 of the ATS attribute.
    pub fn pasid_forward_supported(self) -> (r: bool)
        ensures
            r == (self.ats_attribute / 4 % 2 == 1),
    {
        self.ats_attribute / 4 % 2 == 1
    }

    /// The five low bits of the PASID capabilities.
    pub fn max_pasid_width(self) -> (r: u8)
        ensures
            r == self.pasid_capabilities % 32,
    {
        (self.pasid_capabilities % 32) as u8
    }
}

#[derive(Clone, Copy, Debug, PartialEq, Eq)]
pub struct IortSmmu {
    pub registers: MmioAddrRange,
    pub model: u32,
    pub flags: u32,
    pub global_interrupt_offset: u32,
    pub context_interrupt_count: u32,
    pub context_interrupt_offset: u32,
    pub pmu_interrupt_count: u32,
    pub pmu_interrupt_offset: u32,
    pub header: IortNodeHeader,
}

#[derive(Clone, Copy, Debug, PartialEq, Eq, Structural)]
pub struct IortSmmuGlobalInterrupt {
    pub nsg_irpt: u32,
    pub nsg_irpt_flags: u32,
    pub nsg_cfg_irpt: u32,
    pub nsg_cfg_irpt_flags: u32,
}

#[derive(Clone, Copy, Debug, PartialEq, Eq, Structural)]
pub struct IortSmmuInterrupt {
    pub gsiv: u32,
    pub flags: u32,
}

#[derive(Clone, Copy, Debug, PartialEq, Eq)]
pub struct IortSmmuV3 {
    pub base_address: MmioAddr,
    pub flags: u32,
    pub vatos_address: Option<MmioAddr>,
    pub model: u32,
    pub event_gsiv: u32,
    pub pri_gsiv: u32,
    pub gerr_gsiv: u32,
    pub sync_gsiv: u32,
    pub pxm: u32,
    pub id_mapping_index: u32,
    pub header: IortNodeHeader,
}

impl IortSmmuV3 {
    /// Bit 3 of the flags.
    pub fn pxm_valid(self) -> (r: bool)
        ensures
            r == (self.flags / 8 % 2 == 1),
    {
        self.flags / 8 % 2 == 1
    }

    /// Bit 4 of the flags.
    pub fn device_id_valid(self) -> (r: bool)
        ensures
            r == (self.flags / 16 % 2 == 1),
    {
        self.flags / 16 % 2 == 1
    }
}

#[derive(Clone, Copy, Debug, PartialEq, Eq)]
pub struct IortPmcg {
    pub page0_base_address: MmioAddr,
    pub overflow_gsiv: u32,
    pub node_reference: u32,
    pub page1_base_address: Option<MmioAddr>,
    pub header: IortNodeHeader,
}

#[derive(Clone, Copy, Debug, PartialEq, Eq, Structural)]
pub struct IortReservedMemory {
    pub flags: u32,
    pub descriptor_count: u32,
    pub descriptor_offset: u32,
    pub header: IortNodeHeader,
}

impl IortReservedMemory {
    /// Bit 0 of the flags.
    pub fn remap_permitted(self) -> (r: bool)
        ensures
            r == (self.flags % 2 == 1),
    {
        self.flags % 2 == 1
    }

    /// Bit 1 of the flags.
    pub fn privileged_access(self) -> (r: bool)
        ensures
            r == (self.flags / 2 % 2 == 1),
    {
        self.flags / 2 % 2 == 1
    }

    /// Bits 2 to 9 of the flags.
    pub fn access_attributes(self) -> (r: u8)
        ensures
            r == self.flags / 4 % 256,
    {
        (self.flags / 4 % 256) as u8
    }
}

#[derive(Clone, Copy, Debug, PartialEq, Eq)]
pub struct IortRmrDescriptor {
    pub memory: PhysAddrRange,
    pub reserved: u32,
}

/// The sum of two offsets.
pub open spec fn spec_checked_offset(base: usize, offset: int) -> Result<usize, IortError> {
    if base + offset > usize::MAX {
        Err(IortError::Malformed("IORT offset overflow"))
    } else {
        Ok((base + offset) as usize)
    }
}

fn checked_offset(base: usize, offset: usize) -> (r: Result<usize, IortError>)
    ensures
        r == spec_checked_offset(base, offset as int),
{
    match base.checked_add(offset) {
        Some(sum) => Ok(sum),
        None => Err(IortError::Malformed("IORT offset overflow")),
    }
}

/// The MMIO address with the given number.
pub open spec fn spec_mmio_address(base: u64) -> Result<MmioAddr, IortError> {
    if base > usize::MAX {
        Err(IortError::Malformed("IORT MMIO address cannot fit in usize"))
    } else {
        Ok(IoAddr::of(base as usize))
    }
}

fn mmio_address(base: u64) -> (r: Result<MmioAddr, IortError>)
    ensures
        r == spec_mmio_address(base),
{
    if base > usize::MAX as u64 {
        return Err(IortError::Malformed("IORT MMIO address cannot fit in usize"));
    }
    let addr = IoAddr::from_usize(base as usize);
    proof {
        addr.lemma_of();
    }
    Ok(addr)
}

/// The MMIO range of `size` bytes at `start`.
pub open spec fn spec_mmio_range(start: u64, size: u64) -> Result<MmioAddrRange, IortError> {
    if start > usize::MAX {
        Err(IortError::Malformed("IORT MMIO address cannot fit in usize"))
    } else if size > usize::MAX {
        Err(IortError::Malformed("IORT MMIO range size cannot fit in usize"))
    } else if size == 0 {
        Err(IortError::Malformed("IORT MMIO range is empty"))
    } else if start + size > usize::MAX {
        Err(IortError::Malformed("IORT MMIO range overflows"))
    } else {
        Ok(crate::addr::mmio_window(start as usize, size as int))
    }
}

fn mmio_range_from_start_size(start: u64, size: u64) -> (r: Result<MmioAddrRange, IortError>)
    ensures
        r == spec_mmio_range(start, size),
{
    if start > usize::MAX as u64 {
        return Err(IortError::Malformed("IORT MMIO address cannot fit in usize"));
    }
    if size > usize::MAX as u64 {
        return Err(IortError::Malformed("IORT MMIO range size cannot fit in usize"));
    }
    if size == 0 {
        return Err(IortError::Malformed("IORT MMIO range is empty"));
    }
    match mmio_window_at(start as usize, size as usize) {
        Some(range) => Ok(range),
        None => Err(IortError::Malformed("IORT MMIO range overflows")),
    }
}

/// The memory of `size` bytes at `start`.
pub open spec fn spec_phys_range(start: u64, size: u64) -> Result<PhysAddrRange, IortError> {
    if start > usize::MAX {
        Err(IortError::Malformed("IORT physical address cannot fit in usize"))
    } else if size > usize::MAX {
        Err(IortError::Malformed("IORT physical range size cannot fit in usize"))
    } else if size == 0 {
        Err(IortError::Malformed("IORT physical range is empty"))
    } else if start + size > usize::MAX {
        Err(IortError::Malformed("IORT physical range overflows"))
    } else {
        Ok(
            AddrRange {
                start: PhysAddr(start as usize),
                end: PhysAddr((start + size) as usize),
            },
        )
    }
}

fn phys_range_from_start_size(start: u64, size: u64) -> (r: Result<PhysAddrRange, IortError>)
    ensures
        r == spec_phys_range(start, size),
{
    if start > usize::MAX as u64 {
        return Err(IortError::Malformed("IORT physical address cannot fit in usize"));
    }
    if size > usize::MAX as u64 {
        return Err(IortError::Malformed("IORT physical range size cannot fit in usize"));
    }
    if size == 0 {
        return Err(IortError::Malformed("IORT physical range is empty"));
    }
    match PhysAddrRange::try_from_start_size(PhysAddr::from_usize(start as usize), size as usize) {
        Some(range) => Ok(range),
        None => Err(IortError::Malformed("IORT physical range overflows")),
    }
}

/// The header of the node of `length` bytes at `offset`.
pub open spec fn header_at(s: Seq<u8>, offset: int, length: int) -> IortNodeHeader {
    IortNodeHeader {
        kind: IortNodeKind::spec_from_raw(s[offset]),
        revision: s[offset + 3],
        identifier: crate::bytes::le32(s, offset + 4),
        mapping_count: crate::bytes::le32(s, offset + 8),
        mapping_offset: crate::bytes::le32(s, offset + 12),
        offset: offset as usize,
        length: length as usize,
    }
}

/// The memory access properties at `offset`.
pub open spec fn memory_access_at(s: Seq<u8>, offset: int) -> IortMemoryAccess {
    IortMemoryAccess {
        cache_coherency: crate::bytes::le32(s, offset),
        hints: s[offset + 4],
        memory_flags: s[offset + 7],
    }
}

/// The named component with the given header.
pub open spec fn named_component_at(s: Seq<u8>, header: IortNodeHeader) -> Result<Node, IortError> {
    let at = header.offset as int;
    let name_end = if header.mapping_count == 0 {
        header.length as int
    } else {
        header.mapping_offset as int
    };
    if header.length < 29 {
        Err(IortError::Malformed("IORT named component node shorter than minimum"))
    } else if at + name_end > usize::MAX {
        Err(IortError::Malformed("IORT offset overflow"))
    } else if name_end < 29 || name_end > header.length {
        Err(IortError::Malformed("IORT named component device name bounds are invalid"))
    } else {
        Ok(
            Node::NamedComponent {
                node_flags: crate::bytes::le32(s, at + 16),
                memory_properties: memory_access_at(s, at + 20),
                memory_address_limit: s[at + 28],
                device_name: s.subrange(at + 29, at + name_end),
                header,
            },
        )
    }
}

/// The root complex with the given header.
pub open spec fn root_complex_at(s: Seq<u8>, header: IortNodeHeader) -> Result<Node, IortError> {
    let at = header.offset as int;
    if header.length < 35 {
        Err(IortError::Malformed("IORT root complex node shorter than minimum"))
    } else {
        Ok(
            Node::RootComplex(
                IortRootComplex {
                    memory_properties: memory_access_at(s, at + 16),
                    ats_attribute: crate::bytes::le32(s, at + 24),
                    pci_segment_number: crate::bytes::le32(s, at + 28),
                    memory_address_limit: s[at + 32],
                    pasid_capabilities: crate::bytes::le16(s, at + 33),
                    header,
                },
            ),
        )
    }
}

/// The SMMU with the given header.
pub open spec fn smmu_at(s: Seq<u8>, header: IortNodeHeader) -> Result<Node, IortError> {
    let at = header.offset as int;
    if header.length < 60 {
        Err(IortError::Malformed("IORT SMMU node shorter than minimum"))
    } else {
        match spec_mmio_range(crate::bytes::le64(s, at + 16), crate::bytes::le64(s, at + 24)) {
            Err(error) => Err(error),
            Ok(registers) => Ok(
                Node::Smmu(
                    IortSmmu {
                        registers,
                        model: crate::bytes::le32(s, at + 32),
                        flags: crate::bytes::le32(s, at + 36),
                        global_interrupt_offset: crate::bytes::le32(s, at + 40),
                        context_interrupt_count: crate::bytes::le32(s, at + 44),
                        context_interrupt_offset: crate::bytes::le32(s, at + 48),
                        pmu_interrupt_count: crate::bytes::le32(s, at + 52),
                        pmu_interrupt_offset: crate::bytes::le32(s, at + 56),
                        header,
                    },
                ),
            ),
        }
    }
}

/// An MMIO address that is absent where the number is zero.
pub open spec fn optional_mmio_address(base: u64) -> Result<Option<MmioAddr>, IortError> {
    if base == 0 {
        Ok(None)
    } else {
        match spec_mmio_address(base) {
            Ok(addr) => Ok(Some(addr)),
            Err(error) => Err(error),
        }
    }
}

fn read_optional_mmio_address(base: u64) -> (r: Result<Option<MmioAddr>, IortError>)
    ensures
        r == optional_mmio_address(base),
{
    if base == 0 {
        return Ok(None);
    }
    match mmio_address(base) {
        Ok(addr) => Ok(Some(addr)),
        Err(error) => Err(error),
    }
}

/// The SMMUv3 with the given header.
pub open spec fn smmu_v3_at(s: Seq<u8>, header: IortNodeHeader) -> Result<Node, IortError> {
    let at = header.offset as int;
    if header.length < 68 {
        Err(IortError::Malformed("IORT SMMUv3 node shorter than minimum"))
    } else {
        match (
            spec_mmio_address(crate::bytes::le64(s, at + 16)),
            optional_mmio_address(crate::bytes::le64(s, at + 32)),
        ) {
            (Err(error), _) => Err(error),
            (_, Err(error)) => Err(error),
            (Ok(base_address), Ok(vatos_address)) => Ok(
                Node::SmmuV3(
                    IortSmmuV3 {
                        base_address,
                        flags: crate::bytes::le32(s, at + 24),
                        vatos_address,
                        model: crate::bytes::le32(s, at + 40),
                        event_gsiv: crate::bytes::le32(s, at + 44),
                        pri_gsiv: crate::bytes::le32(s, at + 48),
                        gerr_gsiv: crate::bytes::le32(s, at + 52),
                        sync_gsiv: crate::bytes::le32(s, at + 56),
                        pxm: crate::bytes::le32(s, at + 60),
                        id_mapping_index: crate::bytes::le32(s, at + 64),
                        header,
                    },
                ),
            ),
        }
    }
}

/// The performance monitor counter group with the given header.
pub open spec fn pmcg_at(s: Seq<u8>, header: IortNodeHeader) -> Result<Node, IortError> {
    let at = header.offset as int;
    if header.length < 40 {
        Err(IortError::Malformed("IORT PMCG node shorter than minimum"))
    } else {
        match (
            spec_mmio_address(crate::bytes::le64(s, at + 16)),
            optional_mmio_address(crate::bytes::le64(s, at + 32)),
        ) {
            (Err(error), _) => Err(error),
            (_, Err(error)) => Err(error),
            (Ok(page0_base_address), Ok(page1_base_address)) => Ok(
                Node::Pmcg(
                    IortPmcg {
                        page0_base_address,
                        overflow_gsiv: crate::bytes::le32(s, at + 24),
                        node_reference: crate::bytes::le32(s, at + 28),
                        page1_base_address,
                        header,
                    },
                ),
            ),
        }
    }
}

/// The reserved memory range node with the given header.
pub open spec fn reserved_memory_at(s: Seq<u8>, header: IortNodeHeader) -> Result<Node, IortError> {
    let at = header.offset as int;
    if header.length < 28 {
        Err(IortError::Malformed("IORT RMR node shorter than minimum"))
    } else {
        Ok(
            Node::ReservedMemory(
                IortReservedMemory {
                    flags: crate::bytes::le32(s, at + 16),
                    descriptor_count: crate::bytes::le32(s, at + 20),
                    descriptor_offset: crate::bytes::le32(s, at + 24),
                    header,
                },
            ),
        )
    }
}

/// The ITS group with the given header.
pub open spec fn its_group_at(s: Seq<u8>, header: IortNodeHeader) -> Result<Node, IortError> {
    if header.length < 20 {
        Err(IortError::Malformed("IORT ITS group node shorter than minimum"))
    } else {
        Ok(
            Node::ItsGroup(
                IortItsGroup { its_count: crate::bytes::le32(s, header.offset + 16), header },
            ),
        )
    }
}

/// The node of `length` bytes at `offset`, by its kind.
pub open spec fn node_content(s: Seq<u8>, offset: int, length: int) -> Result<Node, IortError> {
    let header = header_at(s, offset, length);
    match header.kind {
        IortNodeKind::ItsGroup => its_group_at(s, header),
        IortNodeKind::NamedComponent => named_component_at(s, header),
        IortNodeKind::RootComplex => root_complex_at(s, header),
        IortNodeKind::Smmu => smmu_at(s, header),
        IortNodeKind::SmmuV3 => smmu_v3_at(s, header),
        IortNodeKind::Pmcg => pmcg_at(s, header),
        IortNodeKind::ReservedMemory => reserved_memory_at(s, header),
        IortNodeKind::Unknown(kind) => Ok(Node::Unknown(IortUnknownNode { kind, header })),
    }
}

/// What is wrong with the bounds of the node at `offset`.
pub open spec fn node_bounds_fault(s: Seq<u8>, offset: int) -> Option<IortError> {
    let length = crate::bytes::le16(s, offset + 1) as int;
    if offset >= s.len() {
        Some(IortError::Malformed("IORT node count exceeds table contents"))
    } else if offset + 3 > s.len() {
        Some(IortError::Malformed("IORT table read is out of bounds"))
    } else if length < 16 {
        Some(IortError::Malformed("IORT node length smaller than header"))
    } else if offset + length > s.len() {
        Some(IortError::Malformed("IORT node extends past table length"))
    } else {
        None
    }
}

/// The `count` nodes from `offset` on.
pub open spec fn nodes_from(s: Seq<u8>, offset: int, count: int) -> Walk<Node, IortError>
    decreases count,
{
    let length = crate::bytes::le16(s, offset + 1) as int;
    if count <= 0 {
        Walk::end()
    } else {
        match node_bounds_fault(s, offset) {
            Some(error) => Walk::fail(error),
            None => match node_content(s, offset, length) {
                Err(error) => Walk::fail(error),
                Ok(node) => Walk::cons(node, nodes_from(s, offset + length, count - 1)),
            },
        }
    }
}

/// The nodes of a table.
pub open spec fn nodes_of(s: Seq<u8>) -> Walk<Node, IortError> {
    let offset = crate::bytes::le32(s, 40) as int;
    if offset < 48 || offset > s.len() {
        Walk::fail(IortError::Malformed("IORT node array offset is invalid"))
    } else {
        nodes_from(s, offset, crate::bytes::le32(s, 36) as int)
    }
}

/// Whether a node lies in the table `s`.
pub open spec fn node_in_table(node: Node, s: Seq<u8>) -> bool {
    node.spec_header().offset + node.spec_header().length <= s.len()
}

/// What `table_bytes` refuses a table for, as an error of this table.
pub open spec fn iort_fault(fault: SdtFault) -> IortError {
    match fault {
        SdtFault::ShortHeader => IortError::Malformed("IORT table shorter than SDT header"),
        SdtFault::Length => IortError::Malformed("IORT table length is invalid"),
        SdtFault::Acpi(error) => IortError::Acpi(error),
    }
}

/// I/O remapping table.
#[derive(Clone, Copy, Debug)]
pub struct IortTable<'a> {
    sdt: &'a [u8],
}

impl<'a> IortTable<'a> {
    /// The bytes of the table.
    pub closed spec fn view(self) -> Seq<u8> {
        self.sdt@
    }

    /// The table holds its fixed header.
    pub open spec fn wf(self) -> bool {
        self@.len() >= 48
    }

    /// The table that `bytes` start with.
    pub fn parse(bytes: &'a [u8]) -> (r: Result<Self, IortError>)
        ensures
            match crate::firm::acpi::sdt_table(bytes@, Signature([0x49, 0x4f, 0x52, 0x54])) {
                Err(fault) => r == Err::<Self, _>(iort_fault(fault)),
                Ok(table) => if table.len() < 48 {
                    r == Err::<Self, _>(
                        IortError::Malformed("IORT table shorter than fixed header"),
                    )
                } else {
                    r matches Ok(parsed) && parsed@ == table && parsed.wf()
                },
            },
    {
        let signature = Signature::iort();
        assert(signature.0 =~= [0x49u8, 0x4f, 0x52, 0x54]);
        let sdt = match table_bytes(bytes, signature) {
            Ok(sdt) => sdt,
            Err(SdtFault::ShortHeader) => return Err(
                IortError::Malformed("IORT table shorter than SDT header"),
            ),
            Err(SdtFault::Length) => return Err(
                IortError::Malformed("IORT table length is invalid"),
            ),
            Err(SdtFault::Acpi(error)) => return Err(IortError::Acpi(error)),
        };
        if sdt.len() < IORT_TABLE_MIN_LENGTH {
            return Err(IortError::Malformed("IORT table shorter than fixed header"));
        }
        Ok(IortTable { sdt })
    }

    pub fn bytes(self) -> (r: &'a [u8])
        ensures
            r@ == self@,
    {
        self.sdt
    }

    pub fn node_count(self) -> (r: Result<u32, IortError>)
        requires
            self.wf(),
        ensures
            r == Ok::<u32, IortError>(crate::bytes::le32(self@, 36)),
    {
        Ok(get_u32(self.sdt, IORT_NODE_COUNT_OFFSET))
    }

    pub fn node_offset(self) -> (r: Result<u32, IortError>)
        requires
            self.wf(),
        ensures
            r == Ok::<u32, IortError>(crate::bytes::le32(self@, 40)),
    {
        Ok(get_u32(self.sdt, IORT_NODE_OFFSET_OFFSET))
    }

    pub fn nodes(self) -> (r: Result<IortNodes<'a>, IortError>)
        requires
            self.wf(),
        ensures
            match r {
                Ok(nodes) => {
                    &&& nodes.table_bytes() == self@
                    &&& nodes.position() == crate::bytes::le32(self@, 40)
                    &&& nodes.count() == crate::bytes::le32(self@, 36)
                    &&& nodes.remaining() == nodes_of(self@)
                },
                Err(error) => nodes_of(self@) == Walk::<Node, IortError>::fail(error),
            },
            r is Ok == (48 <= crate::bytes::le32(self@, 40) <= self@.len()),
    {
        let offset = match self.node_offset() {
            Ok(offset) => offset as usize,
            Err(error) => return Err(error),
        };
        if offset < IORT_TABLE_MIN_LENGTH || offset > self.sdt.len() {
            return Err(IortError::Malformed("IORT node array offset is invalid"));
        }
        match self.node_count() {
            Ok(remaining) => Ok(IortNodes { table: self, offset, remaining }),
            Err(error) => Err(error),
        }
    }

    fn parse_node(self, offset: usize, length: usize) -> (r: Result<IortNode<'a>, IortError>)
        requires
            offset + length <= self@.len(),
            length >= 16,
        ensures
            match node_content(self@, offset as int, length as int) {
                Ok(node) => r matches Ok(read) && read@ == node,
                Err(error) => r == Err::<IortNode<'a>, _>(error),
            },
    {
        let header = self.parse_node_header(offset, length);
        match header.kind {
            IortNodeKind::ItsGroup => match self.parse_its_group(header) {
                Ok(node) => Ok(IortNode::ItsGroup(node)),
                Err(error) => Err(error),
            },
            IortNodeKind::NamedComponent => match self.parse_named_component(header) {
                Ok(node) => Ok(IortNode::NamedComponent(node)),
                Err(error) => Err(error),
            },
            IortNodeKind::RootComplex => match self.parse_root_complex(header) {
                Ok(node) => Ok(IortNode::RootComplex(node)),
                Err(error) => Err(error),
            },
            IortNodeKind::Smmu => match self.parse_smmu(header) {
                Ok(node) => Ok(IortNode::Smmu(node)),
                Err(error) => Err(error),
            },
            IortNodeKind::SmmuV3 => match self.parse_smmu_v3(header) {
                Ok(node) => Ok(IortNode::SmmuV3(node)),
                Err(error) => Err(error),
            },
            IortNodeKind::Pmcg => match self.parse_pmcg(header) {
                Ok(node) => Ok(IortNode::Pmcg(node)),
                Err(error) => Err(error),
            },
            IortNodeKind::ReservedMemory => match self.parse_reserved_memory(header) {
                Ok(node) => Ok(IortNode::ReservedMemory(node)),
                Err(error) => Err(error),
            },
            IortNodeKind::Unknown(kind) => Ok(IortNode::Unknown(IortUnknownNode { kind, header })),
        }
    }

    fn parse_node_header(self, offset: usize, length: usize) -> (r: IortNodeHeader)
        requires
            offset + length <= self@.len(),
            length >= 16,
        ensures
            r == header_at(self@, offset as int, length as int),
    {
        let sdt = self.sdt;
        assert(sdt.len() == sdt@.len());
        IortNodeHeader {
            kind: IortNodeKind::from_raw(sdt[offset]),
            revision: sdt[offset + 3],
            identifier: get_u32(sdt, offset + 4),
            mapping_count: get_u32(sdt, offset + 8),
            mapping_offset: get_u32(sdt, offset + 12),
            offset,
            length,
        }
    }

    fn read_memory_access(self, offset: usize) -> (r: IortMemoryAccess)
        requires
            offset + 8 <= self@.len(),
        ensures
            r == memory_access_at(self@, offset as int),
    {
        let sdt = self.sdt;
        assert(sdt.len() == sdt@.len());
        IortMemoryAccess {
            cache_coherency: get_u32(sdt, offset),
            hints: sdt[offset + 4],
            memory_flags: sdt[offset + 7],
        }
    }

    fn parse_its_group(self, header: IortNodeHeader) -> (r: Result<IortItsGroup, IortError>)
        requires
            header.offset + header.length <= self@.len(),
        ensures
            match its_group_at(self@, header) {
                Ok(node) => r matches Ok(read) && node == Node::ItsGroup(read),
                Err(error) => r == Err::<IortItsGroup, _>(error),
            },
    {
        assert(self.sdt.len() == self@.len());
        if header.length < ITS_GROUP_MIN_LENGTH {
            return Err(IortError::Malformed("IORT ITS group node shorter than minimum"));
        }
        Ok(IortItsGroup { its_count: get_u32(self.sdt, header.offset + 16), header })
    }

    fn parse_named_component(self, header: IortNodeHeader) -> (r: Result<
        IortNamedComponent<'a>,
        IortError,
    >)
        requires
            header.offset + header.length <= self@.len(),
        ensures
            match named_component_at(self@, header) {
                Ok(node) => r matches Ok(read) && node == IortNode::NamedComponent(read)@,
                Err(error) => r == Err::<IortNamedComponent<'a>, _>(error),
            },
    {
        let sdt = self.sdt;
        assert(sdt.len() == sdt@.len());
        if header.length < NAMED_COMPONENT_MIN_LENGTH {
            return Err(IortError::Malformed("IORT named component node shorter than minimum"));
        }
        let name_start = header.offset + NAMED_COMPONENT_MIN_LENGTH;
        let name_end = if header.mapping_count == 0 {
            header.end_offset()
        } else {
            match checked_offset(header.offset, header.mapping_offset as usize) {
                Ok(end) => end,
                Err(error) => return Err(error),
            }
        };
        if name_end < name_start || name_end > header.end_offset() {
            return Err(IortError::Malformed("IORT named component device name bounds are invalid"));
        }
        Ok(
            IortNamedComponent {
                node_flags: get_u32(sdt, header.offset + 16),
                memory_properties: self.read_memory_access(header.offset + 20),
                memory_address_limit: sdt[header.offset + 28],
                device_name: vstd::slice::slice_subrange(sdt, name_start, name_end),
                header,
            },
        )
    }

    fn parse_root_complex(self, header: IortNodeHeader) -> (r: Result<IortRootComplex, IortError>)
        requires
            header.offset + header.length <= self@.len(),
        ensures
            match root_complex_at(self@, header) {
                Ok(node) => r matches Ok(read) && node == Node::RootComplex(read),
                Err(error) => r == Err::<IortRootComplex, _>(error),
            },
    {
        let sdt = self.sdt;
        assert(sdt.len() == sdt@.len());
        if header.length < ROOT_COMPLEX_MIN_LENGTH {
            return Err(IortError::Malformed("IORT root complex node shorter than minimum"));
        }
        Ok(
            IortRootComplex {
                memory_properties: self.read_memory_access(header.offset + 16),
                ats_attribute: get_u32(sdt, header.offset + 24),
                pci_segment_number: get_u32(sdt, header.offset + 28),
                memory_address_limit: sdt[header.offset + 32],
                pasid_capabilities: get_u16(sdt, header.offset + 33),
                header,
            },
        )
    }

    fn parse_smmu(self, header: IortNodeHeader) -> (r: Result<IortSmmu, IortError>)
        requires
            header.offset + header.length <= self@.len(),
        ensures
            match smmu_at(self@, header) {
                Ok(node) => r matches Ok(read) && node == Node::Smmu(read),
                Err(error) => r == Err::<IortSmmu, _>(error),
            },
    {
        let sdt = self.sdt;
        assert(sdt.len() == sdt@.len());
        if header.length < SMMU_MIN_LENGTH {
            return Err(IortError::Malformed("IORT SMMU node shorter than minimum"));
        }
        let registers = match mmio_range_from_start_size(
            get_u64(sdt, header.offset + 16),
            get_u64(sdt, header.offset + 24),
        ) {
            Ok(registers) => registers,
            Err(error) => return Err(error),
        };
        Ok(
            IortSmmu {
                registers,
                model: get_u32(sdt, header.offset + 32),
                flags: get_u32(sdt, header.offset + 36),
                global_interrupt_offset: get_u32(sdt, header.offset + 40),
                context_interrupt_count: get_u32(sdt, header.offset + 44),
                context_interrupt_offset: get_u32(sdt, header.offset + 48),
                pmu_interrupt_count: get_u32(sdt, header.offset + 52),
                pmu_interrupt_offset: get_u32(sdt, header.offset + 56),
                header,
            },
        )
    }

    fn parse_smmu_v3(self, header: IortNodeHeader) -> (r: Result<IortSmmuV3, IortError>)
        requires
            header.offset + header.length <= self@.len(),
        ensures
            match smmu_v3_at(self@, header) {
                Ok(node) => r matches Ok(read) && node == Node::SmmuV3(read),
                Err(error) => r == Err::<IortSmmuV3, _>(error),
            },
    {
        let sdt = self.sdt;
        assert(sdt.len() == sdt@.len());
        if header.length < SMMU_V3_MIN_LENGTH {
            return Err(IortError::Malformed("IORT SMMUv3 node shorter than minimum"));
        }
        let base_address = match mmio_address(get_u64(sdt, header.offset + 16)) {
            Ok(addr) => addr,
            Err(error) => return Err(error),
        };
        let vatos_address = match read_optional_mmio_address(get_u64(sdt, header.offset + 32)) {
            Ok(addr) => addr,
            Err(error) => return Err(error),
        };
        Ok(
            IortSmmuV3 {
                base_address,
                flags: get_u32(sdt, header.offset + 24),
                vatos_address,
                model: get_u32(sdt, header.offset + 40),
                event_gsiv: get_u32(sdt, header.offset + 44),
                pri_gsiv: get_u32(sdt, header.offset + 48),
                gerr_gsiv: get_u32(sdt, header.offset + 52),
                sync_gsiv: get_u32(sdt, header.offset + 56),
                pxm: get_u32(sdt, header.offset + 60),
                id_mapping_index: get_u32(sdt, header.offset + 64),
                header,
            },
        )
    }

    fn parse_pmcg(self, header: IortNodeHeader) -> (r: Result<IortPmcg, IortError>)
        requires
            header.offset + header.length <= self@.len(),
        ensures
            match pmcg_at(self@, header) {
                Ok(node) => r matches Ok(read) && node == Node::Pmcg(read),
                Err(error) => r == Err::<IortPmcg, _>(error),
            },
    {
        let sdt = self.sdt;
        assert(sdt.len() == sdt@.len());
        if header.length < PMCG_MIN_LENGTH {
            return Err(IortError::Malformed("IORT PMCG node shorter than minimum"));
        }
        let page0_base_address = match mmio_address(get_u64(sdt, header.offset + 16)) {
            Ok(addr) => addr,
            Err(error) => return Err(error),
        };
        let page1_base_address = match read_optional_mmio_address(
            get_u64(sdt, header.offset + 32),
        ) {
            Ok(addr) => addr,
            Err(error) => return Err(error),
        };
        Ok(
            IortPmcg {
                page0_base_address,
                overflow_gsiv: get_u32(sdt, header.offset + 24),
                node_reference: get_u32(sdt, header.offset + 28),
                page1_base_address,
                header,
            },
        )
    }

    fn parse_reserved_memory(self, header: IortNodeHeader) -> (r: Result<
        IortReservedMemory,
        IortError,
    >)
        requires
            header.offset + header.length <= self@.len(),
        ensures
            match reserved_memory_at(self@, header) {
                Ok(node) => r matches Ok(read) && node == Node::ReservedMemory(read),
                Err(error) => r == Err::<IortReservedMemory, _>(error),
            },
    {
        let sdt = self.sdt;
        assert(sdt.len() == sdt@.len());
        if header.length < RMR_MIN_LENGTH {
            return Err(IortError::Malformed("IORT RMR node shorter than minimum"));
        }
        Ok(
            IortReservedMemory {
                flags: get_u32(sdt, header.offset + 16),
                descriptor_count: get_u32(sdt, header.offset + 20),
                descriptor_offset: get_u32(sdt, header.offset + 24),
                header,
            },
        )
    }
}

/// Nodes with good bounds lie in the table.
proof fn lemma_node_in_table(s: Seq<u8>, offset: int)
    requires
        0 <= offset,
        s.len() <= usize::MAX,
        node_bounds_fault(s, offset) is None,
    ensures
        node_content(s, offset, crate::bytes::le16(s, offset + 1) as int) matches Ok(node)
            ==> node_in_table(node, s),
{
}

/// Reader of the nodes of one table.
#[derive(Clone, Copy, Debug)]
pub struct IortNodes<'a> {
    table: IortTable<'a>,
    offset: usize,
    remaining: u32,
}

impl<'a> IortNodes<'a> {
    pub closed spec fn table_bytes(self) -> Seq<u8> {
        self.table@
    }

    /// Where the next node starts.
    pub closed spec fn position(self) -> int {
        self.offset as int
    }

    /// The number of nodes that are still to be read.
    pub closed spec fn count(self) -> int {
        self.remaining as int
    }

    /// The nodes that are still to be read.
    pub open spec fn remaining(self) -> Walk<Node, IortError> {
        nodes_from(self.table_bytes(), self.position(), self.count())
    }

    /// The next node, or what is wrong with it. Behind a node whose bounds are
    /// bad there is nothing more to read; a node with bad content is passed
    /// over.
    pub fn next(&mut self) -> (r: Option<Result<IortNode<'a>, IortError>>)
        ensures
            final(self).table_bytes() == old(self).table_bytes(),
            r is None ==> *final(self) == *old(self),
            r is None == (old(self).count() == 0),
            r is Some ==> match node_bounds_fault(old(self).table_bytes(), old(self).position()) {
                Some(error) => r == Some(Err::<IortNode<'a>, _>(error)) && final(self).count()
                    == 0,
                None => {
                    let length = crate::bytes::le16(
                        old(self).table_bytes(),
                        old(self).position() + 1,
                    ) as int;
                    &&& final(self).position() == old(self).position() + length
                    &&& final(self).count() == old(self).count() - 1
                    &&& match node_content(
                        old(self).table_bytes(),
                        old(self).position(),
                        length,
                    ) {
                        Ok(node) => r matches Some(Ok(read)) && read@ == node,
                        Err(error) => r == Some(Err::<IortNode<'a>, _>(error)),
                    }
                },
            },
            match r {
                None => old(self).remaining() == Walk::<Node, IortError>::end(),
                Some(Err(error)) => old(self).remaining() == Walk::<Node, IortError>::fail(error),
                Some(Ok(node)) => {
                    &&& old(self).remaining().items.len() > 0
                    &&& old(self).remaining().items[0] == node@
                    &&& final(self).remaining() == old(self).remaining().rest()
                    &&& node_in_table(node@, old(self).table_bytes())
                    &&& final(self).count() < old(self).count()
                },
            },
            final(self).count() >= 0,
    {
        let sdt = self.table.sdt;
        assert(sdt.len() == sdt@.len());
        if self.remaining == 0 {
            return None;
        }
        let offset = self.offset;
        if offset >= sdt.len() {
            self.remaining = 0;
            return Some(Err(IortError::Malformed("IORT node count exceeds table contents")));
        }
        if sdt.len() - offset < 3 {
            self.remaining = 0;
            return Some(Err(IortError::Malformed("IORT table read is out of bounds")));
        }
        let length = get_u16(sdt, offset + 1) as usize;
        if length < IORT_NODE_HEADER_LENGTH {
            self.remaining = 0;
            return Some(Err(IortError::Malformed("IORT node length smaller than header")));
        }
        if length > sdt.len() - offset {
            self.remaining = 0;
            return Some(Err(IortError::Malformed("IORT node extends past table length")));
        }
        self.offset = offset + length;
        self.remaining = self.remaining - 1;
        let node = self.table.parse_node(offset, length);
        proof {
            lemma_node_in_table(sdt@, offset as int);
            if let Ok(content) = node {
                Walk::lemma_cons(content@, self.remaining());
            }
        }
        Some(node)
    }

    /// All nodes that are still to be read, where all of them are good.
    pub fn collect(self) -> (r: Result<Vec<IortNode<'a>>, IortError>)
        ensures
            match self.remaining().all() {
                Err(error) => r == Err::<Vec<IortNode<'a>>, _>(error),
                Ok(nodes) => r matches Ok(found) && found@.len() == nodes.len() && forall|i: int|
                    0 <= i < nodes.len() ==> (#[trigger] found@[i])@ == nodes[i],
            },
    {
        let mut nodes = self;
        let mut found: Vec<IortNode<'a>> = Vec::new();
        let ghost walk = self.remaining();
        loop
            invariant
                walk == self.remaining(),
                walk.error == nodes.remaining().error,
                walk.items.len() == found@.len() + nodes.remaining().items.len(),
                forall|i: int| 0 <= i < found@.len() ==> (#[trigger] found@[i])@ == walk.items[i],
                forall|i: int|
                    0 <= i < nodes.remaining().items.len()
                        ==> #[trigger] nodes.remaining().items[i] == walk.items[found@.len() + i],
            decreases nodes.count(),
        {
            let ghost before = nodes.remaining();
            match nodes.next() {
                None => {
                    return Ok(found);
                },
                Some(Err(error)) => return Err(error),
                Some(Ok(node)) => {
                    assert(before.items[0] == walk.items[found@.len() as int]);
                    found.push(node);
                    proof {
                        let rest = nodes.remaining();
                        assert forall|i: int| 0 <= i < rest.items.len() implies
                            #[trigger] rest.items[i] == walk.items[found@.len() + i] by {
                            assert(rest.items[i] == before.items[i + 1]);
                        }
                    }
                },
            }
        }
    }
}

/// The identifier mapping at `at`.
pub open spec fn mapping_at(s: Seq<u8>, at: int) -> Result<IortIdMapping, IortError> {
    if at + 20 > s.len() {
        Err(IortError::Malformed("IORT table read is out of bounds"))
    } else {
        Ok(
            IortIdMapping {
                input_base: crate::bytes::le32(s, at),
                id_count: crate::bytes::le32(s, at + 4),
                output_base: crate::bytes::le32(s, at + 8),
                output_reference: crate::bytes::le32(s, at + 12),
                flags: crate::bytes::le32(s, at + 16),
            },
        )
    }
}

/// The ITS identifier at `at`.
pub open spec fn its_identifier_at(s: Seq<u8>, at: int) -> Result<IortItsIdentifier, IortError> {
    if at + 4 > s.len() {
        Err(IortError::Malformed("IORT table read is out of bounds"))
    } else {
        Ok(IortItsIdentifier { identifier: crate::bytes::le32(s, at) })
    }
}

/// The SMMU interrupt at `at`.
pub open spec fn smmu_interrupt_at(s: Seq<u8>, at: int) -> Result<IortSmmuInterrupt, IortError> {
    if at + 8 > s.len() {
        Err(IortError::Malformed("IORT table read is out of bounds"))
    } else {
        Ok(
            IortSmmuInterrupt {
                gsiv: crate::bytes::le32(s, at),
                flags: crate::bytes::le32(s, at + 4),
            },
        )
    }
}

/// The reserved memory range descriptor at `at`.
pub open spec fn rmr_descriptor_at(s: Seq<u8>, at: int) -> Result<IortRmrDescriptor, IortError> {
    if at + 16 > s.len() {
        Err(IortError::Malformed("IORT table read is out of bounds"))
    } else {
        match spec_phys_range(crate::bytes::le64(s, at), crate::bytes::le64(s, at + 8)) {
            Err(error) => Err(error),
            Ok(memory) => if at + 20 > s.len() {
                Err(IortError::Malformed("IORT table read is out of bounds"))
            } else {
                Ok(IortRmrDescriptor { memory, reserved: crate::bytes::le32(s, at + 16) })
            },
        }
    }
}

/// The `count` identifier mappings from `at` on.
pub open spec fn mappings_from(s: Seq<u8>, at: int, count: int) -> Walk<IortIdMapping, IortError>
    decreases count,
{
    if count <= 0 {
        Walk::end()
    } else {
        match mapping_at(s, at) {
            Err(error) => Walk::fail(error),
            Ok(mapping) => Walk::cons(mapping, mappings_from(s, at + 20, count - 1)),
        }
    }
}

/// Reader of an array of identifier mappings.
#[derive(Clone, Copy, Debug)]
pub struct IortIdMappings<'a> {
    table: IortTable<'a>,
    offset: usize,
    remaining: u32,
}

impl<'a> IortIdMappings<'a> {
    pub closed spec fn table_bytes(self) -> Seq<u8> {
        self.table@
    }

    /// Where the next mapping starts.
    pub closed spec fn position(self) -> int {
        self.offset as int
    }

    /// The number of identifier mappings that are still to be read.
    pub closed spec fn count(self) -> int {
        self.remaining as int
    }

    /// The end of the array is an offset.
    pub open spec fn wf(self) -> bool {
        &&& 0 <= self.position()
        &&& 0 <= self.count()
        &&& self.position() + 20 * self.count() <= usize::MAX
    }

    /// The identifier mappings that are still to be read.
    pub open spec fn remaining(self) -> Walk<IortIdMapping, IortError> {
        mappings_from(self.table_bytes(), self.position(), self.count())
    }

    /// The next mapping, or what is wrong with it. One that is bad is passed
    /// over.
    pub fn next(&mut self) -> (r: Option<Result<IortIdMapping, IortError>>)
        requires
            old(self).wf(),
        ensures
            final(self).wf(),
            final(self).table_bytes() == old(self).table_bytes(),
            if old(self).count() == 0 {
                r is None && *final(self) == *old(self)
            } else {
                &&& r == Some(mapping_at(old(self).table_bytes(), old(self).position()))
                &&& final(self).position() == old(self).position() + 20
                &&& final(self).count() == old(self).count() - 1
            },
            match r {
                None => old(self).remaining() == Walk::<IortIdMapping, IortError>::end(),
                Some(Err(error)) => old(self).remaining() == Walk::<IortIdMapping, IortError>::fail(error),
                Some(Ok(mapping)) => {
                    &&& old(self).remaining().items.len() > 0
                    &&& old(self).remaining().items[0] == mapping
                    &&& final(self).remaining() == old(self).remaining().rest()
                },
            },
    {
        if self.remaining == 0 {
            return None;
        }
        let at = self.offset;
        self.offset = at + 20;
        self.remaining = self.remaining - 1;
        let mapping = Self::read(self.table.sdt, at);
        proof {
            if let Ok(content) = mapping {
                Walk::lemma_cons(content, self.remaining());
            }
        }
        Some(mapping)
    }

    fn read(sdt: &'a [u8], at: usize) -> (r: Result<IortIdMapping, IortError>)
        ensures
            r == mapping_at(sdt@, at as int),
    {
        assert(sdt.len() == sdt@.len());
        if sdt.len() < 20 || at > sdt.len() - 20 {
            return Err(IortError::Malformed("IORT table read is out of bounds"));
        }
        Ok(
            IortIdMapping {
                input_base: get_u32(sdt, at),
                id_count: get_u32(sdt, at + 4),
                output_base: get_u32(sdt, at + 8),
                output_reference: get_u32(sdt, at + 12),
                flags: get_u32(sdt, at + 16),
            },
        )
    }

    /// All identifier mappings that are still to be read, where all of them are good.
    pub fn collect(self) -> (r: Result<Vec<IortIdMapping>, IortError>)
        requires
            self.wf(),
        ensures
            match self.remaining().all() {
                Err(error) => r == Err::<Vec<IortIdMapping>, _>(error),
                Ok(items) => r matches Ok(found) && found@ == items,
            },
    {
        let mut items = self;
        let mut found: Vec<IortIdMapping> = Vec::new();
        loop
            invariant
                items.wf(),
                self.remaining().error == items.remaining().error,
                self.remaining().items =~= found@ + items.remaining().items,
            decreases items.count(),
        {
            let ghost before = items.remaining();
            match items.next() {
                None => {
                    return Ok(found);
                },
                Some(Err(error)) => return Err(error),
                Some(Ok(mapping)) => {
                    found.push(mapping);
                    assert(before.items =~= seq![mapping] + items.remaining().items);
                },
            }
        }
    }
}

/// The `count` ITS identifiers from `at` on.
pub open spec fn its_identifiers_from(s: Seq<u8>, at: int, count: int) -> Walk<IortItsIdentifier, IortError>
    decreases count,
{
    if count <= 0 {
        Walk::end()
    } else {
        match its_identifier_at(s, at) {
            Err(error) => Walk::fail(error),
            Ok(identifier) => Walk::cons(identifier, its_identifiers_from(s, at + 4, count - 1)),
        }
    }
}

/// Reader of an array of ITS identifiers.
#[derive(Clone, Copy, Debug)]
pub struct IortItsIdentifiers<'a> {
    table: IortTable<'a>,
    offset: usize,
    remaining: u32,
}

impl<'a> IortItsIdentifiers<'a> {
    pub closed spec fn table_bytes(self) -> Seq<u8> {
        self.table@
    }

    /// Where the next identifier starts.
    pub closed spec fn position(self) -> int {
        self.offset as int
    }

    /// The number of ITS identifiers that are still to be read.
    pub closed spec fn count(self) -> int {
        self.remaining as int
    }

    /// The end of the array is an offset.
    pub open spec fn wf(self) -> bool {
        &&& 0 <= self.position()
        &&& 0 <= self.count()
        &&& self.position() + 4 * self.count() <= usize::MAX
    }

    /// The ITS identifiers that are still to be read.
    pub open spec fn remaining(self) -> Walk<IortItsIdentifier, IortError> {
        its_identifiers_from(self.table_bytes(), self.position(), self.count())
    }

    /// The next identifier, or what is wrong with it. One that is bad is passed
    /// over.
    pub fn next(&mut self) -> (r: Option<Result<IortItsIdentifier, IortError>>)
        requires
            old(self).wf(),
        ensures
            final(self).wf(),
            final(self).table_bytes() == old(self).table_bytes(),
            if old(self).count() == 0 {
                r is None && *final(self) == *old(self)
            } else {
                &&& r == Some(its_identifier_at(old(self).table_bytes(), old(self).position()))
                &&& final(self).position() == old(self).position() + 4
                &&& final(self).count() == old(self).count() - 1
            },
            match r {
                None => old(self).remaining() == Walk::<IortItsIdentifier, IortError>::end(),
                Some(Err(error)) => old(self).remaining() == Walk::<IortItsIdentifier, IortError>::fail(error),
                Some(Ok(identifier)) => {
                    &&& old(self).remaining().items.len() > 0
                    &&& old(self).remaining().items[0] == identifier
                    &&& final(self).remaining() == old(self).remaining().rest()
                },
            },
    {
        if self.remaining == 0 {
            return None;
        }
        let at = self.offset;
        self.offset = at + 4;
        self.remaining = self.remaining - 1;
        let identifier = Self::read(self.table.sdt, at);
        proof {
            if let Ok(content) = identifier {
                Walk::lemma_cons(content, self.remaining());
            }
        }
        Some(identifier)
    }

    fn read(sdt: &'a [u8], at: usize) -> (r: Result<IortItsIdentifier, IortError>)
        ensures
            r == its_identifier_at(sdt@, at as int),
    {
        assert(sdt.len() == sdt@.len());
        if sdt.len() < 4 || at > sdt.len() - 4 {
            return Err(IortError::Malformed("IORT table read is out of bounds"));
        }
        Ok(IortItsIdentifier { identifier: get_u32(sdt, at) })
    }

    /// All ITS identifiers that are still to be read, where all of them are good.
    pub fn collect(self) -> (r: Result<Vec<IortItsIdentifier>, IortError>)
        requires
            self.wf(),
        ensures
            match self.remaining().all() {
                Err(error) => r == Err::<Vec<IortItsIdentifier>, _>(error),
                Ok(items) => r matches Ok(found) && found@ == items,
            },
    {
        let mut items = self;
        let mut found: Vec<IortItsIdentifier> = Vec::new();
        loop
            invariant
                items.wf(),
                self.remaining().error == items.remaining().error,
                self.remaining().items =~= found@ + items.remaining().items,
            decreases items.count(),
        {
            let ghost before = items.remaining();
            match items.next() {
                None => {
                    return Ok(found);
                },
                Some(Err(error)) => return Err(error),
                Some(Ok(identifier)) => {
                    found.push(identifier);
                    assert(before.items =~= seq![identifier] + items.remaining().items);
                },
            }
        }
    }
}

/// The `count` SMMU interrupts from `at` on.
pub open spec fn smmu_interrupts_from(s: Seq<u8>, at: int, count: int) -> Walk<IortSmmuInterrupt, IortError>
    decreases count,
{
    if count <= 0 {
        Walk::end()
    } else {
        match smmu_interrupt_at(s, at) {
            Err(error) => Walk::fail(error),
            Ok(interrupt) => Walk::cons(interrupt, smmu_interrupts_from(s, at + 8, count - 1)),
        }
    }
}

/// Reader of an array of SMMU interrupts.
#[derive(Clone, Copy, Debug)]
pub struct IortSmmuInterrupts<'a> {
    table: IortTable<'a>,
    offset: usize,
    remaining: u32,
}

impl<'a> IortSmmuInterrupts<'a> {
    pub closed spec fn table_bytes(self) -> Seq<u8> {
        self.table@
    }

    /// Where the next interrupt starts.
    pub closed spec fn position(self) -> int {
        self.offset as int
    }

    /// The number of SMMU interrupts that are still to be read.
    pub closed spec fn count(self) -> int {
        self.remaining as int
    }

    /// The end of the array is an offset.
    pub open spec fn wf(self) -> bool {
        &&& 0 <= self.position()
        &&& 0 <= self.count()
        &&& self.position() + 8 * self.count() <= usize::MAX
    }

    /// The SMMU interrupts that are still to be read.
    pub open spec fn remaining(self) -> Walk<IortSmmuInterrupt, IortError> {
        smmu_interrupts_from(self.table_bytes(), self.position(), self.count())
    }

    /// The next interrupt, or what is wrong with it. One that is bad is passed
    /// over.
    pub fn next(&mut self) -> (r: Option<Result<IortSmmuInterrupt, IortError>>)
        requires
            old(self).wf(),
        ensures
            final(self).wf(),
            final(self).table_bytes() == old(self).table_bytes(),
            if old(self).count() == 0 {
                r is None && *final(self) == *old(self)
            } else {
                &&& r == Some(smmu_interrupt_at(old(self).table_bytes(), old(self).position()))
                &&& final(self).position() == old(self).position() + 8
                &&& final(self).count() == old(self).count() - 1
            },
            match r {
                None => old(self).remaining() == Walk::<IortSmmuInterrupt, IortError>::end(),
                Some(Err(error)) => old(self).remaining() == Walk::<IortSmmuInterrupt, IortError>::fail(error),
                Some(Ok(interrupt)) => {
                    &&& old(self).remaining().items.len() > 0
                    &&& old(self).remaining().items[0] == interrupt
                    &&& final(self).remaining() == old(self).remaining().rest()
                },
            },
    {
        if self.remaining == 0 {
            return None;
        }
        let at = self.offset;
        self.offset = at + 8;
        self.remaining = self.remaining - 1;
        let interrupt = Self::read(self.table.sdt, at);
        proof {
            if let Ok(content) = interrupt {
                Walk::lemma_cons(content, self.remaining());
            }
        }
        Some(interrupt)
    }

    fn read(sdt: &'a [u8], at: usize) -> (r: Result<IortSmmuInterrupt, IortError>)
        ensures
            r == smmu_interrupt_at(sdt@, at as int),
    {
        assert(sdt.len() == sdt@.len());
        if sdt.len() < 8 || at > sdt.len() - 8 {
            return Err(IortError::Malformed("IORT table read is out of bounds"));
        }
        Ok(IortSmmuInterrupt { gsiv: get_u32(sdt, at), flags: get_u32(sdt, at + 4) })
    }

    /// All SMMU interrupts that are still to be read, where all of them are good.
    pub fn collect(self) -> (r: Result<Vec<IortSmmuInterrupt>, IortError>)
        requires
            self.wf(),
        ensures
            match self.remaining().all() {
                Err(error) => r == Err::<Vec<IortSmmuInterrupt>, _>(error),
                Ok(items) => r matches Ok(found) && found@ == items,
            },
    {
        let mut items = self;
        let mut found: Vec<IortSmmuInterrupt> = Vec::new();
        loop
            invariant
                items.wf(),
                self.remaining().error == items.remaining().error,
                self.remaining().items =~= found@ + items.remaining().items,
            decreases items.count(),
        {
            let ghost before = items.remaining();
            match items.next() {
                None => {
                    return Ok(found);
                },
                Some(Err(error)) => return Err(error),
                Some(Ok(interrupt)) => {
                    found.push(interrupt);
                    assert(before.items =~= seq![interrupt] + items.remaining().items);
                },
            }
        }
    }
}

/// The `count` reserved memory range descriptors from `at` on.
pub open spec fn rmr_descriptors_from(s: Seq<u8>, at: int, count: int) -> Walk<IortRmrDescriptor, IortError>
    decreases count,
{
    if count <= 0 {
        Walk::end()
    } else {
        match rmr_descriptor_at(s, at) {
            Err(error) => Walk::fail(error),
            Ok(descriptor) => Walk::cons(descriptor, rmr_descriptors_from(s, at + 20, count - 1)),
        }
    }
}

/// Reader of an array of reserved memory range descriptors.
#[derive(Clone, Copy, Debug)]
pub struct IortRmrDescriptors<'a> {
    table: IortTable<'a>,
    offset: usize,
    remaining: u32,
}

impl<'a> IortRmrDescriptors<'a> {
    pub closed spec fn table_bytes(self) -> Seq<u8> {
        self.table@
    }

    /// Where the next descriptor starts.
    pub closed spec fn position(self) -> int {
        self.offset as int
    }

    /// The number of reserved memory range descriptors that are still to be read.
    pub closed spec fn count(self) -> int {
        self.remaining as int
    }

    /// The end of the array is an offset.
    pub open spec fn wf(self) -> bool {
        &&& 0 <= self.position()
        &&& 0 <= self.count()
        &&& self.position() + 20 * self.count() <= usize::MAX
    }

    /// The reserved memory range descriptors that are still to be read.
    pub open spec fn remaining(self) -> Walk<IortRmrDescriptor, IortError> {
        rmr_descriptors_from(self.table_bytes(), self.position(), self.count())
    }

    /// The next descriptor, or what is wrong with it. One that is bad is passed
    /// over.
    pub fn next(&mut self) -> (r: Option<Result<IortRmrDescriptor, IortError>>)
        requires
            old(self).wf(),
        ensures
            final(self).wf(),
            final(self).table_bytes() == old(self).table_bytes(),
            if old(self).count() == 0 {
                r is None && *final(self) == *old(self)
            } else {
                &&& r == Some(rmr_descriptor_at(old(self).table_bytes(), old(self).position()))
                &&& final(self).position() == old(self).position() + 20
                &&& final(self).count() == old(self).count() - 1
            },
            match r {
                None => old(self).remaining() == Walk::<IortRmrDescriptor, IortError>::end(),
                Some(Err(error)) => old(self).remaining() == Walk::<IortRmrDescriptor, IortError>::fail(error),
                Some(Ok(descriptor)) => {
                    &&& old(self).remaining().items.len() > 0
                    &&& old(self).remaining().items[0] == descriptor
                    &&& final(self).remaining() == old(self).remaining().rest()
                },
            },
    {
        if self.remaining == 0 {
            return None;
        }
        let at = self.offset;
        self.offset = at + 20;
        self.remaining = self.remaining - 1;
        let descriptor = Self::read(self.table.sdt, at);
        proof {
            if let Ok(content) = descriptor {
                Walk::lemma_cons(content, self.remaining());
            }
        }
        Some(descriptor)
    }

    fn read(sdt: &'a [u8], at: usize) -> (r: Result<IortRmrDescriptor, IortError>)
        ensures
            r == rmr_descriptor_at(sdt@, at as int),
    {
        assert(sdt.len() == sdt@.len());
        if sdt.len() < 16 || at > sdt.len() - 16 {
            return Err(IortError::Malformed("IORT table read is out of bounds"));
        }
        let memory = match phys_range_from_start_size(get_u64(sdt, at), get_u64(sdt, at + 8)) {
            Ok(memory) => memory,
            Err(error) => return Err(error),
        };
        if sdt.len() - at < 20 {
            return Err(IortError::Malformed("IORT table read is out of bounds"));
        }
        Ok(IortRmrDescriptor { memory, reserved: get_u32(sdt, at + 16) })
    }

    /// All reserved memory range descriptors that are still to be read, where all of them are good.
    pub fn collect(self) -> (r: Result<Vec<IortRmrDescriptor>, IortError>)
        requires
            self.wf(),
        ensures
            match self.remaining().all() {
                Err(error) => r == Err::<Vec<IortRmrDescriptor>, _>(error),
                Ok(items) => r matches Ok(found) && found@ == items,
            },
    {
        let mut items = self;
        let mut found: Vec<IortRmrDescriptor> = Vec::new();
        loop
            invariant
                items.wf(),
                self.remaining().error == items.remaining().error,
                self.remaining().items =~= found@ + items.remaining().items,
            decreases items.count(),
        {
            let ghost before = items.remaining();
            match items.next() {
                None => {
                    return Ok(found);
                },
                Some(Err(error)) => return Err(error),
                Some(Ok(descriptor)) => {
                    found.push(descriptor);
                    assert(before.items =~= seq![descriptor] + items.remaining().items);
                },
            }
        }
    }
}

/// Where the identifier mappings of a node start.
pub open spec fn id_mapping_array(header: IortNodeHeader) -> Result<int, IortError> {
    let start = header.offset + header.mapping_offset;
    let bytes = header.mapping_count * 20;
    if header.mapping_count == 0 {
        Ok(header.offset + header.length)
    } else if start > usize::MAX {
        Err(IortError::Malformed("IORT offset overflow"))
    } else if bytes > usize::MAX {
        Err(IortError::Malformed("IORT ID mapping array length overflows"))
    } else if start + bytes > usize::MAX {
        Err(IortError::Malformed("IORT offset overflow"))
    } else if header.mapping_offset < 16 || start + bytes > header.offset + header.length {
        Err(IortError::Malformed("IORT ID mapping array extends past node"))
    } else {
        Ok(start)
    }
}

/// The identifier mappings of a node.
pub open spec fn mappings_of(s: Seq<u8>, header: IortNodeHeader) -> Walk<
    IortIdMapping,
    IortError,
> {
    match id_mapping_array(header) {
        Err(error) => Walk::fail(error),
        Ok(start) => mappings_from(s, start, header.mapping_count as int),
    }
}

/// Where the identifiers of an ITS group start.
pub open spec fn its_identifier_array(group: IortItsGroup) -> Result<int, IortError> {
    let start = group.header.offset + 20;
    let bytes = group.its_count * 4;
    if bytes > usize::MAX {
        Err(IortError::Malformed("IORT ITS identifier array length overflows"))
    } else if start + bytes > usize::MAX {
        Err(IortError::Malformed("IORT offset overflow"))
    } else if start + bytes > group.header.offset + group.header.length {
        Err(IortError::Malformed("IORT ITS identifier array extends past node"))
    } else {
        Ok(start)
    }
}

/// Where the descriptors of a reserved memory range node start.
pub open spec fn rmr_descriptor_array(memory: IortReservedMemory) -> Result<int, IortError> {
    let start = memory.header.offset + memory.descriptor_offset;
    let bytes = memory.descriptor_count * 20;
    if start > usize::MAX {
        Err(IortError::Malformed("IORT offset overflow"))
    } else if bytes > usize::MAX {
        Err(IortError::Malformed("IORT RMR descriptor array length overflows"))
    } else if start + bytes > usize::MAX {
        Err(IortError::Malformed("IORT offset overflow"))
    } else if memory.descriptor_offset < 28 || start + bytes > memory.header.offset
        + memory.header.length {
        Err(IortError::Malformed("IORT RMR descriptor array extends past node"))
    } else {
        Ok(start)
    }
}

/// The descriptors of a reserved memory range node.
pub open spec fn descriptors_of(s: Seq<u8>, memory: IortReservedMemory) -> Walk<
    IortRmrDescriptor,
    IortError,
> {
    match rmr_descriptor_array(memory) {
        Err(error) => Walk::fail(error),
        Ok(start) => rmr_descriptors_from(s, start, memory.descriptor_count as int),
    }
}

/// Where an array of `count` interrupts of an SMMU starts.
pub open spec fn smmu_interrupt_array(header: IortNodeHeader, offset: u32, count: u32) -> Result<
    int,
    IortError,
> {
    let start = header.offset + offset;
    let bytes = count * 8;
    if count == 0 {
        Ok(header.offset + header.length)
    } else if start > usize::MAX {
        Err(IortError::Malformed("IORT offset overflow"))
    } else if bytes > usize::MAX {
        Err(IortError::Malformed("IORT SMMU interrupt array length overflows"))
    } else if offset < 60 {
        Err(IortError::Malformed("IORT SMMU interrupt array extends past node"))
    } else if start + bytes > usize::MAX {
        Err(IortError::Malformed("IORT offset overflow"))
    } else if start + bytes > header.offset + header.length {
        Err(IortError::Malformed("IORT SMMU interrupt array extends past node"))
    } else {
        Ok(start)
    }
}

/// The global interrupts of an SMMU.
pub open spec fn spec_global_interrupt(s: Seq<u8>, smmu: IortSmmu) -> Result<
    Option<IortSmmuGlobalInterrupt>,
    IortError,
> {
    let at = smmu.header.offset + smmu.global_interrupt_offset;
    if smmu.global_interrupt_offset == 0 {
        Ok(None)
    } else if at + 16 > usize::MAX {
        Err(IortError::Malformed("IORT offset overflow"))
    } else if at + 16 > smmu.header.offset + smmu.header.length {
        Err(IortError::Malformed("IORT SMMU global interrupt extends past node"))
    } else if at + 16 > s.len() {
        Err(IortError::Malformed("IORT table read is out of bounds"))
    } else {
        Ok(
            Some(
                IortSmmuGlobalInterrupt {
                    nsg_irpt: crate::bytes::le32(s, at),
                    nsg_irpt_flags: crate::bytes::le32(s, at + 4),
                    nsg_cfg_irpt: crate::bytes::le32(s, at + 8),
                    nsg_cfg_irpt_flags: crate::bytes::le32(s, at + 12),
                },
            ),
        )
    }
}

/// The number of bytes of an array, where it is a number.
fn array_bytes(count: u32, record: usize) -> (r: Option<usize>)
    ensures
        r == (if count * record <= usize::MAX {
            Some((count * record) as usize)
        } else {
            None
        }),
{
    (count as usize).checked_mul(record)
}

impl<'a> IortTable<'a> {
    pub fn id_mappings(self, node: IortNode<'a>) -> (r: Result<IortIdMappings<'a>, IortError>)
        requires
            node@.spec_header().wf(),
        ensures
            match id_mapping_array(node@.spec_header()) {
                Err(error) => r == Err::<IortIdMappings<'a>, _>(error),
                Ok(start) => r matches Ok(mappings) && mappings.wf() && mappings.table_bytes()
                    == self@ && mappings.position() == start && mappings.count()
                    == node@.spec_header().mapping_count,
            },
    {
        self.id_mappings_for_header(node.header())
    }

    pub fn id_mappings_for(self, header: IortNodeHeader) -> (r: Result<
        IortIdMappings<'a>,
        IortError,
    >)
        requires
            header.wf(),
        ensures
            match id_mapping_array(header) {
                Err(error) => r == Err::<IortIdMappings<'a>, _>(error),
                Ok(start) => r matches Ok(mappings) && mappings.wf() && mappings.table_bytes()
                    == self@ && mappings.position() == start && mappings.count()
                    == header.mapping_count,
            },
    {
        self.id_mappings_for_header(header)
    }

    fn id_mappings_for_header(self, header: IortNodeHeader) -> (r: Result<
        IortIdMappings<'a>,
        IortError,
    >)
        requires
            header.wf(),
        ensures
            match id_mapping_array(header) {
                Err(error) => r == Err::<IortIdMappings<'a>, _>(error),
                Ok(start) => r matches Ok(mappings) && mappings.wf() && mappings.table_bytes()
                    == self@ && mappings.position() == start && mappings.count()
                    == header.mapping_count,
            },
    {
        if header.mapping_count == 0 {
            return Ok(
                IortIdMappings { table: self, offset: header.end_offset(), remaining: 0 },
            );
        }
        let mapping_offset = header.mapping_offset as usize;
        let start = match checked_offset(header.offset, mapping_offset) {
            Ok(start) => start,
            Err(error) => return Err(error),
        };
        let bytes = match array_bytes(header.mapping_count, IORT_ID_MAPPING_LENGTH) {
            Some(bytes) => bytes,
            None => return Err(IortError::Malformed("IORT ID mapping array length overflows")),
        };
        let end = match checked_offset(start, bytes) {
            Ok(end) => end,
            Err(error) => return Err(error),
        };
        if mapping_offset < IORT_NODE_HEADER_LENGTH || end > header.end_offset() {
            return Err(IortError::Malformed("IORT ID mapping array extends past node"));
        }
        Ok(IortIdMappings { table: self, offset: start, remaining: header.mapping_count })
    }

    pub fn its_identifiers(self, group: IortItsGroup) -> (r: Result<
        IortItsIdentifiers<'a>,
        IortError,
    >)
        requires
            group.header.wf(),
            group.header.offset + 20 <= usize::MAX,
        ensures
            match its_identifier_array(group) {
                Err(error) => r == Err::<IortItsIdentifiers<'a>, _>(error),
                Ok(start) => r matches Ok(identifiers) && identifiers.wf()
                    && identifiers.table_bytes() == self@ && identifiers.position() == start
                    && identifiers.count() == group.its_count,
            },
    {
        let start = group.header.offset + ITS_GROUP_MIN_LENGTH;
        let bytes = match array_bytes(group.its_count, 4) {
            Some(bytes) => bytes,
            None => return Err(
                IortError::Malformed("IORT ITS identifier array length overflows"),
            ),
        };
        let end = match checked_offset(start, bytes) {
            Ok(end) => end,
            Err(error) => return Err(error),
        };
        if end > group.header.end_offset() {
            return Err(IortError::Malformed("IORT ITS identifier array extends past node"));
        }
        Ok(IortItsIdentifiers { table: self, offset: start, remaining: group.its_count })
    }

    pub fn rmr_descriptors(self, memory: IortReservedMemory) -> (r: Result<
        IortRmrDescriptors<'a>,
        IortError,
    >)
        requires
            memory.header.wf(),
        ensures
            match rmr_descriptor_array(memory) {
                Err(error) => r == Err::<IortRmrDescriptors<'a>, _>(error),
                Ok(start) => r matches Ok(descriptors) && descriptors.wf()
                    && descriptors.table_bytes() == self@ && descriptors.position() == start
                    && descriptors.count() == memory.descriptor_count,
            },
    {
        let descriptor_offset = memory.descriptor_offset as usize;
        let start = match checked_offset(memory.header.offset, descriptor_offset) {
            Ok(start) => start,
            Err(error) => return Err(error),
        };
        let bytes = match array_bytes(memory.descriptor_count, RMR_DESCRIPTOR_LENGTH) {
            Some(bytes) => bytes,
            None => return Err(
                IortError::Malformed("IORT RMR descriptor array length overflows"),
            ),
        };
        let end = match checked_offset(start, bytes) {
            Ok(end) => end,
            Err(error) => return Err(error),
        };
        if descriptor_offset < RMR_MIN_LENGTH || end > memory.header.end_offset() {
            return Err(IortError::Malformed("IORT RMR descriptor array extends past node"));
        }
        Ok(IortRmrDescriptors { table: self, offset: start, remaining: memory.descriptor_count })
    }

    pub fn smmu_context_interrupts(self, smmu: IortSmmu) -> (r: Result<
        IortSmmuInterrupts<'a>,
        IortError,
    >)
        requires
            smmu.header.wf(),
        ensures
            match smmu_interrupt_array(
                smmu.header,
                smmu.context_interrupt_offset,
                smmu.context_interrupt_count,
            ) {
                Err(error) => r == Err::<IortSmmuInterrupts<'a>, _>(error),
                Ok(start) => r matches Ok(interrupts) && interrupts.wf()
                    && interrupts.table_bytes() == self@ && interrupts.position() == start
                    && interrupts.count() == smmu.context_interrupt_count,
            },
    {
        self.smmu_interrupts(
            smmu.header,
            smmu.context_interrupt_offset,
            smmu.context_interrupt_count,
        )
    }

    pub fn smmu_pmu_interrupts(self, smmu: IortSmmu) -> (r: Result<
        IortSmmuInterrupts<'a>,
        IortError,
    >)
        requires
            smmu.header.wf(),
        ensures
            match smmu_interrupt_array(
                smmu.header,
                smmu.pmu_interrupt_offset,
                smmu.pmu_interrupt_count,
            ) {
                Err(error) => r == Err::<IortSmmuInterrupts<'a>, _>(error),
                Ok(start) => r matches Ok(interrupts) && interrupts.wf()
                    && interrupts.table_bytes() == self@ && interrupts.position() == start
                    && interrupts.count() == smmu.pmu_interrupt_count,
            },
    {
        self.smmu_interrupts(smmu.header, smmu.pmu_interrupt_offset, smmu.pmu_interrupt_count)
    }

    fn smmu_interrupts(self, header: IortNodeHeader, offset: u32, count: u32) -> (r: Result<
        IortSmmuInterrupts<'a>,
        IortError,
    >)
        requires
            header.wf(),
        ensures
            match smmu_interrupt_array(header, offset, count) {
                Err(error) => r == Err::<IortSmmuInterrupts<'a>, _>(error),
                Ok(start) => r matches Ok(interrupts) && interrupts.wf()
                    && interrupts.table_bytes() == self@ && interrupts.position() == start
                    && interrupts.count() == count,
            },
    {
        if count == 0 {
            return Ok(
                IortSmmuInterrupts { table: self, offset: header.end_offset(), remaining: 0 },
            );
        }
        let start = match checked_offset(header.offset, offset as usize) {
            Ok(start) => start,
            Err(error) => return Err(error),
        };
        let bytes = match array_bytes(count, 8) {
            Some(bytes) => bytes,
            None => return Err(
                IortError::Malformed("IORT SMMU interrupt array length overflows"),
            ),
        };
        if (offset as usize) < SMMU_MIN_LENGTH {
            return Err(IortError::Malformed("IORT SMMU interrupt array extends past node"));
        }
        let end = match checked_offset(start, bytes) {
            Ok(end) => end,
            Err(error) => return Err(error),
        };
        if end > header.end_offset() {
            return Err(IortError::Malformed("IORT SMMU interrupt array extends past node"));
        }
        Ok(IortSmmuInterrupts { table: self, offset: start, remaining: count })
    }

    pub fn smmu_global_interrupt(self, smmu: IortSmmu) -> (r: Result<
        Option<IortSmmuGlobalInterrupt>,
        IortError,
    >)
        requires
            smmu.header.wf(),
        ensures
            r == spec_global_interrupt(self@, smmu),
    {
        let sdt = self.sdt;
        assert(sdt.len() == sdt@.len());
        if smmu.global_interrupt_offset == 0 {
            return Ok(None);
        }
        let at = match checked_offset(smmu.header.offset, smmu.global_interrupt_offset as usize) {
            Ok(at) => at,
            Err(error) => return Err(error),
        };
        let end = match checked_offset(at, 16) {
            Ok(end) => end,
            Err(error) => return Err(error),
        };
        if end > smmu.header.end_offset() {
            return Err(IortError::Malformed("IORT SMMU global interrupt extends past node"));
        }
        if end > sdt.len() {
            return Err(IortError::Malformed("IORT table read is out of bounds"));
        }
        Ok(
            Some(
                IortSmmuGlobalInterrupt {
                    nsg_irpt: get_u32(sdt, at),
                    nsg_irpt_flags: get_u32(sdt, at + 4),
                    nsg_cfg_irpt: get_u32(sdt, at + 8),
                    nsg_cfg_irpt_flags: get_u32(sdt, at + 12),
                },
            ),
        )
    }
}

/// The first node at the given offset.
pub open spec fn find_from(walk: Walk<Node, IortError>, offset: int) -> Result<
    Option<Node>,
    IortError,
>
    decreases walk.items.len(),
{
    if walk.items.len() == 0 {
        match walk.error {
            Some(error) => Err(error),
            None => Ok(None),
        }
    } else if walk.items[0].spec_header().offset == offset {
        Ok(Some(walk.items[0]))
    } else {
        find_from(walk.rest(), offset)
    }
}

/// The node that a reference stands for.
pub open spec fn spec_node_by_reference(s: Seq<u8>, reference: u32) -> Result<
    Option<Node>,
    IortError,
> {
    if reference < crate::bytes::le32(s, 40) || reference >= s.len() {
        Ok(None)
    } else {
        find_from(nodes_of(s), reference as int)
    }
}

/// The root complex of a segment that a node is.
pub open spec fn as_root_complex(segment: u16) -> spec_fn(Node) -> Option<IortRootComplex> {
    |node: Node|
        match node {
            Node::RootComplex(root) => if root.pci_segment_number == segment {
                Some(root)
            } else {
                None
            },
            _ => None,
        }
}

/// The last root complex of a segment.
pub open spec fn spec_root_complex(s: Seq<u8>, segment: u16) -> Result<
    Option<IortRootComplex>,
    IortError,
> {
    match nodes_of(s).all() {
        Err(error) => Err(error),
        Ok(nodes) => Ok(crate::walk::last_some(nodes, as_root_complex(segment))),
    }
}

/// Where the first of the mappings that applies leads an identifier. A mapping
/// whose last identifier it is applies only where no other does.
pub open spec fn translate_from(
    walk: Walk<IortIdMapping, IortError>,
    kind: IortNodeKind,
    input_id: u32,
    fallback: Option<IortSingleStepTranslation>,
) -> Result<Option<IortSingleStepTranslation>, IortError>
    decreases walk.items.len(),
{
    if walk.items.len() == 0 {
        match walk.error {
            Some(error) => Err(error),
            None => Ok(fallback),
        }
    } else {
        let mapping = walk.items[0];
        match mapping.spec_translate(kind, input_id) {
            None => translate_from(walk.rest(), kind, input_id, fallback),
            Some(id) => {
                let step = IortSingleStepTranslation {
                    id,
                    output_reference: mapping.output_reference,
                };
                if mapping.id_count > 0 && input_id == last_id(mapping) {
                    translate_from(walk.rest(), kind, input_id, Some(step))
                } else {
                    Ok(Some(step))
                }
            },
        }
    }
}

/// The last identifier of a mapping, or the largest there is.
pub open spec fn last_id(mapping: IortIdMapping) -> int {
    if mapping.input_base + mapping.id_count > u32::MAX {
        u32::MAX as int
    } else {
        mapping.input_base + mapping.id_count
    }
}

/// Follows an identifier from a node to the first node of kind `target`, over
/// no more than `steps` nodes.
pub open spec fn map_from(s: Seq<u8>, node: Node, id: u32, target: IortNodeKind, steps: int) -> Result<
    Option<(Node, u32)>,
    IortError,
>
    decreases steps,
{
    if steps <= 0 {
        Err(IortError::Malformed("IORT ID mapping graph contains a cycle"))
    } else if node.spec_header().kind == target {
        Ok(Some((node, id)))
    } else {
        match translate_from(
            mappings_of(s, node.spec_header()),
            node.spec_header().kind,
            id,
            None,
        ) {
            Err(error) => Err(error),
            Ok(None) => Ok(None),
            Ok(Some(step)) => match spec_node_by_reference(s, step.output_reference) {
                Err(error) => Err(error),
                Ok(None) => Ok(None),
                Ok(Some(next)) => map_from(s, next, step.id, target, steps - 1),
            },
        }
    }
}

/// Follows a PCI requester from its root complex to the first node of kind
/// `target`.
pub open spec fn map_requester(s: Seq<u8>, requester: PciDevice, target: IortNodeKind) -> Result<
    Option<(Node, u32)>,
    IortError,
> {
    match spec_root_complex(s, requester.spec_segment()) {
        Err(error) => Err(error),
        Ok(None) => Ok(None),
        Ok(Some(root)) => map_from(
            s,
            Node::RootComplex(root),
            requester.spec_bdf().0 as u32,
            target,
            crate::bytes::le32(s, 36) as int,
        ),
    }
}

/// Whether what a function on nodes returned is the given node and identifier.
pub open spec fn is_translation<'a>(
    r: Result<Option<IortIdTranslation<'a>>, IortError>,
    expected: Result<Option<(Node, u32)>, IortError>,
) -> bool {
    match expected {
        Err(error) => r == Err::<Option<IortIdTranslation<'a>>, _>(error),
        Ok(None) => r == Ok::<_, IortError>(None::<IortIdTranslation<'a>>),
        Ok(Some((node, id))) => r matches Ok(Some(found)) && found.node@ == node && found.id == id,
    }
}

/// Whether a mapping maps the requester.
pub open spec fn mapping_has(bdf: Bdf) -> spec_fn(IortIdMapping) -> bool {
    |mapping: IortIdMapping|
        mapping.spec_input_bdf_range() matches Some(range) && range.has(bdf.0 as int)
}

/// Whether the identifiers of a mapping are not requesters.
pub open spec fn mapping_unresolved() -> spec_fn(IortIdMapping) -> bool {
    |mapping: IortIdMapping| mapping.spec_input_bdf_range() is None
}

/// What a search for requesters has found so far.
pub struct RequesterScan {
    /// The node has been seen.
    pub found: bool,
    /// A mapping does not map requesters.
    pub unresolved: bool,
    /// The requesters of the other mappings.
    pub runs: Seq<BdfRange>,
}

impl RequesterScan {
    pub open spec fn start() -> Self {
        RequesterScan { found: false, unresolved: false, runs: Seq::empty() }
    }

    /// Adds the requesters of a mapping, for which there may be no room.
    pub open spec fn mapping(self, mapping: IortIdMapping) -> Result<Self, IortError> {
        match mapping.spec_input_bdf_range() {
            None => Ok(RequesterScan { unresolved: true, ..self }),
            Some(range) => match crate::firm::pcie::with_range(
                self.runs,
                range,
                IORT_REQUESTER_WINDOW_CAPACITY as int,
            ) {
                Some(runs) => Ok(RequesterScan { runs, ..self }),
                None => Err(IortError::BdfRanges(BdfRangeSetError::Full)),
            },
        }
    }

    /// Adds the requesters of a list of mappings.
    pub open spec fn mappings(self, walk: Walk<IortIdMapping, IortError>) -> Result<
        Self,
        IortError,
    >
        decreases walk.items.len(),
    {
        if walk.items.len() == 0 {
            match walk.error {
                Some(error) => Err(error),
                None => Ok(self),
            }
        } else {
            match self.mapping(walk.items[0]) {
                Ok(after) => after.mappings(walk.rest()),
                Err(error) => Err(error),
            }
        }
    }

    /// Adds the requesters of a node, where it reserves the given memory.
    pub open spec fn node(self, s: Seq<u8>, memory: PhysAddrRange, node: Node) -> Result<
        Self,
        IortError,
    > {
        match node {
            Node::ReservedMemory(rmr) => match descriptors_of(s, rmr).all() {
                Err(error) => Err(error),
                Ok(descriptors) => if crate::walk::any(descriptors, reserves(memory)) {
                    (RequesterScan { found: true, ..self }).mappings(mappings_of(s, rmr.header))
                } else {
                    Ok(self)
                },
            },
            _ => Ok(self),
        }
    }

    /// Adds the requesters of a list of nodes.
    pub open spec fn nodes(
        self,
        s: Seq<u8>,
        memory: PhysAddrRange,
        walk: Walk<Node, IortError>,
    ) -> Result<Self, IortError>
        decreases walk.items.len(),
    {
        if walk.items.len() == 0 {
            match walk.error {
                Some(error) => Err(error),
                None => Ok(self),
            }
        } else {
            match self.node(s, memory, walk.items[0]) {
                Ok(after) => after.nodes(s, memory, walk.rest()),
                Err(error) => Err(error),
            }
        }
    }
}

/// Whether a descriptor reserves the given memory.
pub open spec fn reserves(memory: PhysAddrRange) -> spec_fn(IortRmrDescriptor) -> bool {
    |descriptor: IortRmrDescriptor| descriptor.memory.same_bounds(memory)
}

/// The requesters of the root complex of a segment: `None` where there is no
/// such root complex, or where it maps no requesters.
pub open spec fn spec_root_complex_bdf_ranges(s: Seq<u8>, segment: u16) -> Result<
    Option<Seq<BdfRange>>,
    IortError,
> {
    match spec_root_complex(s, segment) {
        Err(error) => Err(error),
        Ok(None) => Ok(None),
        Ok(Some(root)) => match RequesterScan::start().mappings(mappings_of(s, root.header)) {
            Err(error) => Err(error),
            Ok(scan) => Ok(
                if scan.runs.len() == 0 {
                    None
                } else {
                    Some(scan.runs)
                },
            ),
        },
    }
}

/// How the root complex of a requester's segment relates to the requester:
/// `None` where there is no such root complex.
pub open spec fn spec_requester_match(s: Seq<u8>, requester: PciDevice) -> Result<
    Option<IortRequesterMatch>,
    IortError,
> {
    match spec_root_complex(s, requester.spec_segment()) {
        Err(error) => Err(error),
        Ok(None) => Ok(None),
        Ok(Some(root)) => match mappings_of(s, root.header).all() {
            Err(error) => Err(error),
            Ok(mappings) => Ok(
                Some(
                    if crate::walk::any(mappings, mapping_has(requester.spec_bdf())) {
                        IortRequesterMatch::Covered
                    } else if crate::walk::any(mappings, mapping_unresolved()) {
                        IortRequesterMatch::Unresolved
                    } else {
                        IortRequesterMatch::NotCovered
                    },
                ),
            ),
        },
    }
}

/// Whether a node reserves the given memory and one of its mappings maps the
/// requester.
pub open spec fn rmr_names(s: Seq<u8>, memory: PhysAddrRange, bdf: Bdf) -> spec_fn(Node) -> bool {
    |node: Node|
        match node {
            Node::ReservedMemory(rmr) => crate::walk::any(
                descriptors_of(s, rmr).items,
                reserves(memory),
            ) && crate::walk::any(mappings_of(s, rmr.header).items, mapping_has(bdf)),
            _ => false,
        }
}

proof fn lemma_mappings_add_what_they_map(
    scan: RequesterScan,
    walk: Walk<IortIdMapping, IortError>,
    bdf: Bdf,
)
    requires
        crate::firm::pcie::canonical(scan.runs),
        scan.runs.len() <= IORT_REQUESTER_WINDOW_CAPACITY,
        scan.mappings(walk) is Ok,
    ensures
        ({
            let after = scan.mappings(walk)->Ok_0;
            &&& crate::firm::pcie::canonical(after.runs)
            &&& after.runs.len() <= IORT_REQUESTER_WINDOW_CAPACITY
            &&& walk.error is None
            &&& crate::firm::pcie::covered(after.runs, bdf.0 as int) == (
            crate::firm::pcie::covered(scan.runs, bdf.0 as int) || crate::walk::any(
                walk.items,
                mapping_has(bdf),
            ))
        }),
    decreases walk.items.len(),
{
    if walk.items.len() > 0 {
        let mapping = walk.items[0];
        let after = scan.mapping(mapping)->Ok_0;
        crate::walk::lemma_any_step(walk.items, mapping_has(bdf));
        if mapping.single() {
            BdfRange::lemma_of_bounds(0, 0x1_0000);
        } else if mapping.input_base + mapping.id_count <= 0xffff {
            BdfRange::lemma_of_bounds(
                mapping.input_base as int,
                mapping.input_base + mapping.id_count + 1,
            );
        }
        if mapping.spec_input_bdf_range() is Some {
            crate::firm::pcie::law_adding_a_range_adds_its_identities(
                scan.runs,
                mapping.spec_input_bdf_range()->0,
                IORT_REQUESTER_WINDOW_CAPACITY as int,
            );
        }
        lemma_mappings_add_what_they_map(after, walk.rest(), bdf);
    }
}

proof fn lemma_nodes_add_what_they_map(
    scan: RequesterScan,
    s: Seq<u8>,
    memory: PhysAddrRange,
    walk: Walk<Node, IortError>,
    bdf: Bdf,
)
    requires
        crate::firm::pcie::canonical(scan.runs),
        scan.runs.len() <= IORT_REQUESTER_WINDOW_CAPACITY,
        scan.nodes(s, memory, walk) is Ok,
    ensures
        ({
            let after = scan.nodes(s, memory, walk)->Ok_0;
            &&& crate::firm::pcie::canonical(after.runs)
            &&& crate::firm::pcie::covered(after.runs, bdf.0 as int) == (
            crate::firm::pcie::covered(scan.runs, bdf.0 as int) || crate::walk::any(
                walk.items,
                rmr_names(s, memory, bdf),
            ))
        }),
    decreases walk.items.len(),
{
    if walk.items.len() > 0 {
        let after = scan.node(s, memory, walk.items[0])->Ok_0;
        crate::walk::lemma_any_step(walk.items, rmr_names(s, memory, bdf));
        match walk.items[0] {
            Node::ReservedMemory(rmr) => {
                if crate::walk::any(descriptors_of(s, rmr).items, reserves(memory)) {
                    lemma_mappings_add_what_they_map(
                        RequesterScan { found: true, ..scan },
                        mappings_of(s, rmr.header),
                        bdf,
                    );
                }
            },
            _ => {},
        }
        lemma_nodes_add_what_they_map(after, s, memory, walk.rest(), bdf);
    }
}

/// The runs that are returned for a segment are in order and apart, and hold a
/// requester exactly where the root complex of the segment covers it.
pub proof fn law_root_complex_ranges_agree_with_requester_match(s: Seq<u8>, requester: PciDevice)
    requires
        spec_root_complex_bdf_ranges(s, requester.spec_segment()) matches Ok(Some(_)),
    ensures
        spec_root_complex_bdf_ranges(s, requester.spec_segment()) matches Ok(Some(runs)) && {
            &&& crate::firm::pcie::canonical(runs)
            &&& crate::firm::pcie::covered(runs, requester.spec_bdf().0 as int)
                <==> spec_requester_match(s, requester) == Ok::<
                Option<IortRequesterMatch>,
                IortError,
            >(Some(IortRequesterMatch::Covered))
        },
{
    let root = spec_root_complex(s, requester.spec_segment())->Ok_0->0;
    lemma_mappings_add_what_they_map(
        RequesterScan::start(),
        mappings_of(s, root.header),
        requester.spec_bdf(),
    );
}

/// The runs that are found for a memory range are in order and apart, and cover
/// exactly the requesters that the mappings of the nodes that reserve it map.
pub proof fn law_rmr_ranges_cover_exactly_the_mapped_requesters(
    s: Seq<u8>,
    memory: PhysAddrRange,
    bdf: Bdf,
)
    requires
        RequesterScan::start().nodes(s, memory, nodes_of(s)) is Ok,
    ensures
        ({
            let runs = RequesterScan::start().nodes(s, memory, nodes_of(s))->Ok_0.runs;
            &&& crate::firm::pcie::canonical(runs)
            &&& crate::firm::pcie::covered(runs, bdf.0 as int) <==> crate::walk::any(
                nodes_of(s).items,
                rmr_names(s, memory, bdf),
            )
        }),
{
    lemma_nodes_add_what_they_map(RequesterScan::start(), s, memory, nodes_of(s), bdf);
}

/// A mapping of a range keeps the order and the distance of the identifiers
/// that it maps, and so maps no two of them to one.
pub proof fn law_range_mapping_keeps_distances(
    mapping: IortIdMapping,
    kind: IortNodeKind,
    a: u32,
    b: u32,
)
    requires
        !mapping.single(),
        mapping.spec_translate(kind, a) is Some,
        mapping.spec_translate(kind, b) is Some,
    ensures
        mapping.spec_translate(kind, b)->0 - mapping.spec_translate(kind, a)->0 == b - a,
{
}

/// What a callback on nodes may return for a node.
pub open spec fn node_outcome<'a, F: Fn(IortNode<'a>) -> Result<(), IortError>>(f: F) -> spec_fn(
    Node,
    Result<(), IortError>,
) -> bool {
    |node: Node, r: Result<(), IortError>|
        exists|read: IortNode<'a>| read@ == node && #[trigger] call_ensures(f, (read,), r)
}

/// What a callback on SMMUv3 nodes may return for a node, where other
/// nodes are passed over.
pub open spec fn smmu_v3_outcome<F: Fn(IortSmmuV3) -> Result<(), IortError>>(f: F) -> spec_fn(
    Node,
    Result<(), IortError>,
) -> bool {
    |node: Node, r: Result<(), IortError>|
        match node {
            Node::SmmuV3(smmu) => call_ensures(f, (smmu,), r),
            _ => r is Ok,
        }
}

/// What a callback on root complexes may return for a node, where other
/// nodes are passed over.
pub open spec fn root_complex_outcome<F: Fn(IortRootComplex) -> Result<(), IortError>>(f: F) -> spec_fn(
    Node,
    Result<(), IortError>,
) -> bool {
    |node: Node, r: Result<(), IortError>|
        match node {
            Node::RootComplex(root) => call_ensures(f, (root,), r),
            _ => r is Ok,
        }
}

/// What a callback on reserved memory range nodes may return for a node, where other
/// nodes are passed over.
pub open spec fn reserved_memory_outcome<F: Fn(IortReservedMemory) -> Result<(), IortError>>(f: F) -> spec_fn(
    Node,
    Result<(), IortError>,
) -> bool {
    |node: Node, r: Result<(), IortError>|
        match node {
            Node::ReservedMemory(memory) => call_ensures(f, (memory,), r),
            _ => r is Ok,
        }
}

impl<'a> IortTable<'a> {
    /// Hands the nodes of the table to a visitor.
    pub fn visit_nodes<V: Visitor<IortNode<'a>, IortError>>(self, visitor: &mut V) -> (r: Result<
        (),
        IortError,
    >)
        requires
            self.wf(),
            old(visitor).ready(),
        ensures
            final(visitor).ready(),
            final(visitor).unused() == old(visitor).unused(),
            crate::walk::logged(
                nodes_of(self@),
                old(visitor).log(),
                final(visitor).log(),
                r,
            ),
    {
        let ghost walk = nodes_of(self@);
        let ghost base = visitor.log();
        proof {
            crate::walk::lemma_handing_begins(walk, base);
        }
        let mut nodes = match self.nodes() {
            Ok(nodes) => nodes,
            Err(error) => {
                proof {
                    crate::walk::lemma_handing_ends(walk, walk, base, base);
                }
                return Err(error);
            },
        };
        loop
            invariant
                walk == nodes_of(self@),
                base == old(visitor).log(),
                visitor.ready(),
                visitor.unused() == old(visitor).unused(),
                crate::walk::under_way(walk, nodes.remaining(), base, visitor.log()),
            decreases nodes.count(),
        {
            let ghost rest = nodes.remaining();
            let ghost log = visitor.log();
            match nodes.next() {
                None => {
                    proof {
                        crate::walk::lemma_handing_ends(walk, rest, base, log);
                    }
                    return Ok(());
                },
                Some(Err(error)) => {
                    proof {
                        crate::walk::lemma_handing_ends(walk, rest, base, log);
                    }
                    return Err(error);
                },
                Some(Ok(node)) => {
                    let returned = visitor.visit(node);
                    proof {
                        crate::walk::lemma_handing_goes_on(walk, rest, base, log, returned);
                    }
                    if returned.is_err() {
                        return returned;
                    }
                },
            }
        }
    }

    /// Hands the nodes of the table to `f`.
    pub fn for_each_node<F>(self, f: F) -> (r: Result<(), IortError>) where
        F: Fn(IortNode<'a>) -> Result<(), IortError>,

        requires
            self.wf(),
            forall|node: IortNode<'a>| call_requires(f, (node,)),
        ensures
            crate::walk::visited(node_outcome(f), nodes_of(self@), r),
    {
        let mut visitor = Visits::new(f);
        let ghost start = visitor;
        let r = self.visit_nodes(&mut visitor);
        proof {
            visitor.lemma_calls(start, f);
            assert(visitor.log().skip(0) =~= visitor.log());
            crate::walk::law_handed_records_are_visited(
                node_outcome(f),
                nodes_of(self@),
                visitor.log(),
                r,
            );
        }
        r
    }

    /// Hands the SMMUv3 nodes of the table to `f`.
    pub fn for_each_smmu_v3<F>(self, f: F) -> (r: Result<(), IortError>) where
        F: Fn(IortSmmuV3) -> Result<(), IortError>,

        requires
            self.wf(),
            forall|smmu: IortSmmuV3| call_requires(f, (smmu,)),
        ensures
            crate::walk::visited(smmu_v3_outcome(f), nodes_of(self@), r),
    {
        let ghost outcome = smmu_v3_outcome(f);
        let on_node = |node: IortNode<'a>| -> (r: Result<(), IortError>)
            ensures
                outcome(node@, r),
            {
                match node {
                    IortNode::SmmuV3(smmu) => f(smmu),
                    _ => Ok(()),
                }
            };
        let returned = self.for_each_node(on_node);
        proof {
            crate::walk::lemma_visited_weaken(
                node_outcome(on_node),
                outcome,
                nodes_of(self@),
                returned,
            );
        }
        returned
    }

    /// Hands the root complexes of the table to `f`.
    pub fn for_each_root_complex<F>(self, f: F) -> (r: Result<(), IortError>) where
        F: Fn(IortRootComplex) -> Result<(), IortError>,

        requires
            self.wf(),
            forall|root: IortRootComplex| call_requires(f, (root,)),
        ensures
            crate::walk::visited(root_complex_outcome(f), nodes_of(self@), r),
    {
        let ghost outcome = root_complex_outcome(f);
        let on_node = |node: IortNode<'a>| -> (r: Result<(), IortError>)
            ensures
                outcome(node@, r),
            {
                match node {
                    IortNode::RootComplex(root) => f(root),
                    _ => Ok(()),
                }
            };
        let returned = self.for_each_node(on_node);
        proof {
            crate::walk::lemma_visited_weaken(
                node_outcome(on_node),
                outcome,
                nodes_of(self@),
                returned,
            );
        }
        returned
    }

    /// Hands the reserved memory range nodes of the table to `f`.
    pub fn for_each_reserved_memory<F>(self, f: F) -> (r: Result<(), IortError>) where
        F: Fn(IortReservedMemory) -> Result<(), IortError>,

        requires
            self.wf(),
            forall|memory: IortReservedMemory| call_requires(f, (memory,)),
        ensures
            crate::walk::visited(reserved_memory_outcome(f), nodes_of(self@), r),
    {
        let ghost outcome = reserved_memory_outcome(f);
        let on_node = |node: IortNode<'a>| -> (r: Result<(), IortError>)
            ensures
                outcome(node@, r),
            {
                match node {
                    IortNode::ReservedMemory(memory) => f(memory),
                    _ => Ok(()),
                }
            };
        let returned = self.for_each_node(on_node);
        proof {
            crate::walk::lemma_visited_weaken(
                node_outcome(on_node),
                outcome,
                nodes_of(self@),
                returned,
            );
        }
        returned
    }

    /// The node that a reference stands for.
    pub fn node_by_reference(self, reference: u32) -> (r: Result<Option<IortNode<'a>>, IortError>)
        requires
            self.wf(),
        ensures
            match spec_node_by_reference(self@, reference) {
                Err(error) => r == Err::<Option<IortNode<'a>>, _>(error),
                Ok(None) => r == Ok::<_, IortError>(None::<IortNode<'a>>),
                Ok(Some(node)) => r matches Ok(Some(found)) && found@ == node && node_in_table(
                    node,
                    self@,
                ),
            },
    {
        assert(self.sdt.len() == self@.len());
        let first = match self.node_offset() {
            Ok(first) => first,
            Err(error) => return Err(error),
        };
        let offset = reference as usize;
        if reference < first || offset >= self.sdt.len() {
            return Ok(None);
        }
        let mut nodes = match self.nodes() {
            Ok(nodes) => nodes,
            Err(error) => return Err(error),
        };
        let ghost total = find_from(nodes_of(self@), reference as int);
        loop
            invariant
                total == spec_node_by_reference(self@, reference),
                total == find_from(nodes.remaining(), reference as int),
                offset == reference,
                nodes.table_bytes() == self@,
            decreases nodes.count(),
        {
            match nodes.next() {
                None => return Ok(None),
                Some(Err(error)) => return Err(error),
                Some(Ok(node)) => {
                    if node.header().offset == offset {
                        return Ok(Some(node));
                    }
                },
            }
        }
    }

    /// The root complex of a segment, the last one where there are more.
    pub fn root_complex_for_segment(self, segment: u16) -> (r: Result<
        Option<IortRootComplex>,
        IortError,
    >)
        requires
            self.wf(),
        ensures
            r == spec_root_complex(self@, segment),
            r matches Ok(Some(root)) ==> root.header.offset + root.header.length <= self@.len(),
    {
        let mut nodes = match self.nodes() {
            Ok(nodes) => nodes,
            Err(error) => return Err(error),
        };
        let mut found: Option<IortRootComplex> = None;
        let ghost walk = nodes_of(self@);
        let ghost pick = as_root_complex(segment);
        loop
            invariant
                walk == nodes_of(self@),
                pick == as_root_complex(segment),
                nodes.table_bytes() == self@,
                walk.error == nodes.remaining().error,
                found matches Some(root) ==> root.header.offset + root.header.length
                    <= self@.len(),
                crate::walk::last_some(walk.items, pick) == (match crate::walk::last_some(
                    nodes.remaining().items,
                    pick,
                ) {
                    Some(root) => Some(root),
                    None => found,
                }),
            decreases nodes.count(),
        {
            proof {
                if nodes.remaining().items.len() > 0 {
                    crate::walk::lemma_last_some_step(nodes.remaining().items, pick);
                }
            }
            match nodes.next() {
                None => return Ok(found),
                Some(Err(error)) => return Err(error),
                Some(Ok(IortNode::RootComplex(root))) => {
                    if root.pci_segment_number == segment as u32 {
                        found = Some(root);
                    }
                },
                Some(Ok(_)) => {},
            }
        }
    }

    /// Adds the requesters that a node maps to `ranges`, and tells whether a
    /// mapping so far does not map requesters.
    fn scan_mappings(
        self,
        header: IortNodeHeader,
        found: bool,
        unresolved: bool,
        ranges: &mut IortBdfRangeSet,
    ) -> (r: Result<bool, IortError>)
        requires
            header.wf(),
            old(ranges).wf(),
        ensures
            final(ranges).wf(),
            match (RequesterScan { found, unresolved, runs: old(ranges)@ }).mappings(
                mappings_of(self@, header),
            ) {
                Ok(scan) => r matches Ok(unmapped) && scan == (RequesterScan {
                    found,
                    unresolved: unmapped,
                    runs: final(ranges)@,
                }),
                Err(error) => r == Err::<bool, _>(error),
            },
    {
        let mut mappings = match self.id_mappings_for(header) {
            Ok(mappings) => mappings,
            Err(error) => return Err(error),
        };
        let mut unmapped = unresolved;
        let ghost walk = mappings_of(self@, header);
        loop
            invariant
                walk == mappings_of(self@, header),
                mappings.wf(),
                ranges.wf(),
                (RequesterScan { found, unresolved, runs: old(ranges)@ }).mappings(walk) == (
                RequesterScan { found, unresolved: unmapped, runs: ranges@ }).mappings(
                    mappings.remaining(),
                ),
            decreases mappings.count(),
        {
            match mappings.next() {
                None => return Ok(unmapped),
                Some(Err(error)) => return Err(error),
                Some(Ok(mapping)) => match mapping.input_bdf_range() {
                    Err(error) => return Err(error),
                    Ok(Some(range)) => {
                        if let Err(error) = ranges.insert::<IortError>(range) {
                            return Err(error);
                        }
                    },
                    Ok(None) => unmapped = true,
                },
            }
        }
    }

    pub fn root_complex_bdf_ranges(self, segment: u16) -> (r: Result<
        Option<IortBdfRangeSet>,
        IortError,
    >)
        requires
            self.wf(),
        ensures
            match spec_root_complex_bdf_ranges(self@, segment) {
                Err(error) => r == Err::<Option<IortBdfRangeSet>, _>(error),
                Ok(None) => r == Ok::<_, IortError>(None::<IortBdfRangeSet>),
                Ok(Some(runs)) => r matches Ok(Some(set)) && set.wf() && set@ == runs,
            },
    {
        assert(self.sdt.len() == self@.len());
        let root = match self.root_complex_for_segment(segment) {
            Err(error) => return Err(error),
            Ok(None) => return Ok(None),
            Ok(Some(root)) => root,
        };
        let mut ranges = IortBdfRangeSet::empty();
        if let Err(error) = self.scan_mappings(root.header, false, false, &mut ranges) {
            return Err(error);
        }
        if ranges.is_empty() {
            return Ok(None);
        }
        Ok(Some(ranges))
    }

    pub fn root_complex_requester_match(self, requester: PciDevice) -> (r: Result<
        Option<IortRequesterMatch>,
        IortError,
    >)
        requires
            self.wf(),
        ensures
            r == spec_requester_match(self@, requester),
    {
        assert(self.sdt.len() == self@.len());
        let root = match self.root_complex_for_segment(requester.segment()) {
            Err(error) => return Err(error),
            Ok(None) => return Ok(None),
            Ok(Some(root)) => root,
        };
        let bdf = requester.bdf();
        let mut mappings = match self.id_mappings_for(root.header) {
            Ok(mappings) => mappings,
            Err(error) => return Err(error),
        };
        let mut covered = false;
        let mut unresolved = false;
        let ghost walk = mappings_of(self@, root.header);
        let ghost has = mapping_has(bdf);
        let ghost unmapped = mapping_unresolved();
        loop
            invariant_except_break
                walk == mappings_of(self@, root.header),
                spec_root_complex(self@, requester.spec_segment()) == Ok::<_, IortError>(
                    Some(root),
                ),
                walk.error == mappings.remaining().error,
                crate::walk::any(walk.items, has) == (covered || crate::walk::any(
                    mappings.remaining().items,
                    has,
                )),
                crate::walk::any(walk.items, unmapped) == (unresolved || crate::walk::any(
                    mappings.remaining().items,
                    unmapped,
                )),
            invariant
                has == mapping_has(bdf),
                unmapped == mapping_unresolved(),
                mappings.wf(),
            ensures
                walk.error is None,
                crate::walk::any(walk.items, has) == covered,
                crate::walk::any(walk.items, unmapped) == unresolved,
            decreases mappings.count(),
        {
            proof {
                if mappings.remaining().items.len() > 0 {
                    crate::walk::lemma_any_step(mappings.remaining().items, has);
                    crate::walk::lemma_any_step(mappings.remaining().items, unmapped);
                }
            }
            match mappings.next() {
                None => break ,
                Some(Err(error)) => return Err(error),
                Some(Ok(mapping)) => match mapping.input_bdf_range() {
                    Err(error) => return Err(error),
                    Ok(Some(range)) => {
                        if range.contains(bdf) {
                            covered = true;
                        }
                    },
                    Ok(None) => unresolved = true,
                },
            }
        }
        Ok(
            Some(
                if covered {
                    IortRequesterMatch::Covered
                } else if unresolved {
                    IortRequesterMatch::Unresolved
                } else {
                    IortRequesterMatch::NotCovered
                },
            ),
        )
    }

    /// Where the mappings of a node lead an identifier.
    fn translate_once(self, node: IortNode<'a>, input_id: u32) -> (r: Result<
        Option<IortSingleStepTranslation>,
        IortError,
    >)
        requires
            node@.spec_header().wf(),
        ensures
            r == translate_from(
                mappings_of(self@, node@.spec_header()),
                node@.spec_header().kind,
                input_id,
                None,
            ),
    {
        let kind = node.header().kind;
        let mut mappings = match self.id_mappings(node) {
            Ok(mappings) => mappings,
            Err(error) => return Err(error),
        };
        let mut fallback: Option<IortSingleStepTranslation> = None;
        let ghost total = translate_from(
            mappings_of(self@, node@.spec_header()),
            kind,
            input_id,
            None,
        );
        loop
            invariant
                kind == node@.spec_header().kind,
                total == translate_from(
                    mappings_of(self@, node@.spec_header()),
                    kind,
                    input_id,
                    None,
                ),
                mappings.wf(),
                total == translate_from(mappings.remaining(), kind, input_id, fallback),
            decreases mappings.count(),
        {
            match mappings.next() {
                None => return Ok(fallback),
                Some(Err(error)) => return Err(error),
                Some(Ok(mapping)) => {
                    if let Some(id) = mapping.translate_for_node_kind(kind, input_id) {
                        let translation = IortSingleStepTranslation {
                            id,
                            output_reference: mapping.output_reference,
                        };
                        if mapping.id_count > 0 && input_id == mapping.input_base.saturating_add(
                            mapping.id_count,
                        ) {
                            fallback = Some(translation);
                        } else {
                            return Ok(Some(translation));
                        }
                    }
                },
            }
        }
    }

    /// Follows an identifier from a node to the first node of kind `target`.
    pub fn map_id_to_kind(self, node: IortNode<'a>, input_id: u32, target: IortNodeKind) -> (r:
        Result<Option<IortIdTranslation<'a>>, IortError>)
        requires
            self.wf(),
            node@.spec_header().wf(),
        ensures
            is_translation(
                r,
                map_from(self@, node@, input_id, target, crate::bytes::le32(self@, 36) as int),
            ),
    {
        assert(self.sdt.len() == self@.len());
        let mut current = node;
        let mut id = input_id;
        let mut remaining = match self.node_count() {
            Ok(count) => count,
            Err(error) => return Err(error),
        };
        let ghost total = map_from(self@, node@, input_id, target, remaining as int);
        while remaining != 0
            invariant
                self.wf(),
                self@.len() <= usize::MAX,
                current@.spec_header().wf(),
                total == map_from(
                    self@,
                    node@,
                    input_id,
                    target,
                    crate::bytes::le32(self@, 36) as int,
                ),
                total == map_from(self@, current@, id, target, remaining as int),
            decreases remaining,
        {
            if current.header().kind == target {
                return Ok(Some(IortIdTranslation { node: current, id }));
            }
            let translation = match self.translate_once(current, id) {
                Err(error) => return Err(error),
                Ok(None) => return Ok(None),
                Ok(Some(translation)) => translation,
            };
            id = translation.id;
            let next = match self.node_by_reference(translation.output_reference) {
                Err(error) => return Err(error),
                Ok(None) => return Ok(None),
                Ok(Some(next)) => next,
            };
            current = next;
            remaining = remaining - 1;
        }
        Err(IortError::Malformed("IORT ID mapping graph contains a cycle"))
    }

    pub fn map_pci_requester_to_kind(self, requester: PciDevice, target: IortNodeKind) -> (r:
        Result<Option<IortIdTranslation<'a>>, IortError>)
        requires
            self.wf(),
        ensures
            is_translation(r, map_requester(self@, requester, target)),
    {
        assert(self.sdt.len() == self@.len());
        let root = match self.root_complex_for_segment(requester.segment()) {
            Err(error) => return Err(error),
            Ok(None) => return Ok(None),
            Ok(Some(root)) => root,
        };
        self.map_id_to_kind(IortNode::RootComplex(root), requester.bdf().as_u32(), target)
    }

    /// The SMMUv3 behind which a PCI requester stands, else the SMMU.
    pub fn iommu_for_pci_requester(self, requester: PciDevice) -> (r: Result<
        Option<IortIdTranslation<'a>>,
        IortError,
    >)
        requires
            self.wf(),
        ensures
            is_translation(
                r,
                match map_requester(self@, requester, IortNodeKind::SmmuV3) {
                    Ok(None) => map_requester(self@, requester, IortNodeKind::Smmu),
                    found => found,
                },
            ),
    {
        match self.map_pci_requester_to_kind(requester, IortNodeKind::SmmuV3) {
            Err(error) => Err(error),
            Ok(Some(translation)) => Ok(Some(translation)),
            Ok(None) => self.map_pci_requester_to_kind(requester, IortNodeKind::Smmu),
        }
    }

    /// Whether a node reserves the given memory.
    fn reserves_memory(self, rmr: IortReservedMemory, memory: PhysAddrRange) -> (r: Result<
        bool,
        IortError,
    >)
        requires
            rmr.header.wf(),
        ensures
            r == (match descriptors_of(self@, rmr).all() {
                Err(error) => Err(error),
                Ok(descriptors) => Ok(crate::walk::any(descriptors, reserves(memory))),
            }),
    {
        let mut descriptors = match self.rmr_descriptors(rmr) {
            Ok(descriptors) => descriptors,
            Err(error) => return Err(error),
        };
        let mut matches = false;
        let ghost walk = descriptors_of(self@, rmr);
        let ghost same = reserves(memory);
        loop
            invariant
                walk == descriptors_of(self@, rmr),
                same == reserves(memory),
                descriptors.wf(),
                walk.error == descriptors.remaining().error,
                crate::walk::any(walk.items, same) == (matches || crate::walk::any(
                    descriptors.remaining().items,
                    same,
                )),
            decreases descriptors.count(),
        {
            proof {
                if descriptors.remaining().items.len() > 0 {
                    crate::walk::lemma_any_step(descriptors.remaining().items, same);
                }
            }
            match descriptors.next() {
                None => return Ok(matches),
                Some(Err(error)) => return Err(error),
                Some(Ok(descriptor)) => {
                    if descriptor.memory.has_bounds_of(memory) {
                        matches = true;
                    }
                },
            }
        }
    }

    /// The requesters for which the given memory is reserved: `None` where no
    /// node reserves it, where a mapping does not map requesters, or where
    /// there are none.
    pub fn rmr_bdf_ranges(self, memory: PhysAddrRange) -> (r: Result<
        Option<IortBdfRangeSet>,
        IortError,
    >)
        requires
            self.wf(),
        ensures
            match RequesterScan::start().nodes(self@, memory, nodes_of(self@)) {
                Err(error) => r == Err::<Option<IortBdfRangeSet>, _>(error),
                Ok(scan) => if !scan.found || scan.unresolved || scan.runs.len() == 0 {
                    r == Ok::<_, IortError>(None::<IortBdfRangeSet>)
                } else {
                    r matches Ok(Some(set)) && set.wf() && set@ == scan.runs
                },
            },
    {
        assert(self.sdt.len() == self@.len());
        let mut found = false;
        let mut unresolved = false;
        let mut ranges = IortBdfRangeSet::empty();
        let mut nodes = match self.nodes() {
            Ok(nodes) => nodes,
            Err(error) => return Err(error),
        };
        let ghost total = RequesterScan::start().nodes(self@, memory, nodes_of(self@));
        loop
            invariant_except_break
                self@.len() <= usize::MAX,
                nodes.table_bytes() == self@,
                total == RequesterScan::start().nodes(self@, memory, nodes_of(self@)),
                total == (RequesterScan { found, unresolved, runs: ranges@ }).nodes(
                    self@,
                    memory,
                    nodes.remaining(),
                ),
            invariant
                ranges.wf(),
            ensures
                total == Ok::<_, IortError>(RequesterScan { found, unresolved, runs: ranges@ }),
            decreases nodes.count(),
        {
            match nodes.next() {
                None => break ,
                Some(Err(error)) => return Err(error),
                Some(Ok(IortNode::ReservedMemory(rmr))) => {
                    match self.reserves_memory(rmr, memory) {
                        Err(error) => return Err(error),
                        Ok(false) => {},
                        Ok(true) => {
                            found = true;
                            match self.scan_mappings(rmr.header, true, unresolved, &mut ranges) {
                                Err(error) => return Err(error),
                                Ok(unmapped) => unresolved = unmapped,
                            }
                        },
                    }
                },
                Some(Ok(_)) => {},
            }
        }
        if !found || unresolved || ranges.is_empty() {
            return Ok(None);
        }
        Ok(Some(ranges))
    }
}

} // verus!
