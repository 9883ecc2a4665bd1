//! AMD-Vi IVRS firmware table parsing.

use vstd::prelude::*;
use vstd::std_specs::convert::FromSpecImpl;

use crate::addr::{mmio_window_at, AddrRange, MmioAddrRange, PhysAddr, PhysAddrRange};
use crate::bytes::{get_u16, get_u32, get_u64};
use crate::firm::acpi::{table_bytes, AcpiError, SdtFault, Signature};
use crate::firm::pcie::{Bdf, BdfRange, BdfRangeSet, BdfRangeSetError, PciDevice};
use crate::memory::PagingError;
use crate::walk::{Visitor, Visits, Walk};

verus! {

const IVRS_IVINFO_OFFSET: usize = 36;

const IVRS_BLOCKS_OFFSET: usize = 48;

const IVHD_TYPE_10H: u8 = 0x10;

const IVHD_TYPE_11H: u8 = 0x11;

const IVHD_TYPE_40H: u8 = 0x40;

const IVMD_TYPE_ALL: u8 = 0x20;

const IVMD_TYPE_SPECIFIED: u8 = 0x21;

const IVMD_TYPE_RANGE: u8 = 0x22;

const IVHD_10H_DEVICE_ENTRIES_OFFSET: usize = 24;

const IVHD_11H_DEVICE_ENTRIES_OFFSET: usize = 40;

const IVMD_MIN_LENGTH: usize = 24;

const DEVENTRY_PAD: u8 = 0x00;

const DEVENTRY_ALL: u8 = 0x01;

const DEVENTRY_SELECT: u8 = 0x02;

const DEVENTRY_RANGE_START: u8 = 0x03;

const DEVENTRY_RANGE_END: u8 = 0x04;

const DEVENTRY_ALIAS_SELECT: u8 = 0x42;

const DEVENTRY_ALIAS_RANGE_START: u8 = 0x43;

const DEVENTRY_EXTENDED_SELECT: u8 = 0x46;

const DEVENTRY_EXTENDED_RANGE_START: u8 = 0x47;

const DEVENTRY_SPECIAL: u8 = 0x48;

const DEVENTRY_ACPI_NAMED: u8 = 0xf0;

const DEVENTRY_ACPI_NAMED_MIN_LENGTH: usize = 22;

/// Size of the register window of one AMD-Vi unit.
pub const AMD_VI_REGISTER_WINDOW_SIZE: usize = 0x4000;

pub const IVRS_REQUESTER_WINDOW_CAPACITY: usize = 16;

pub type IvrsBdfRangeSet = BdfRangeSet<IVRS_REQUESTER_WINDOW_CAPACITY>;

pub type IvrsBdfRange = BdfRange;

#[derive(Clone, Copy, Debug, PartialEq, Eq)]
pub enum IvrsError {
    Acpi(AcpiError),
    BdfRanges(BdfRangeSetError),
    Mapping(PagingError),
    Malformed(&'static str),
}

impl From<AcpiError> for IvrsError {
    fn from(value: AcpiError) -> (r: Self) {
        IvrsError::Acpi(value)
    }
}

impl FromSpecImpl<AcpiError> for IvrsError {
    open spec fn obeys_from_spec() -> bool {
        true
    }

    open spec fn from_spec(value: AcpiError) -> Self {
        IvrsError::Acpi(value)
    }
}

impl From<BdfRangeSetError> for IvrsError {
    fn from(value: BdfRangeSetError) -> (r: Self) {
        IvrsError::BdfRanges(value)
    }
}

impl FromSpecImpl<BdfRangeSetError> for IvrsError {
    open spec fn obeys_from_spec() -> bool {
        true
    }

    open spec fn from_spec(value: BdfRangeSetError) -> Self {
        IvrsError::BdfRanges(value)
    }
}

impl From<PagingError> for IvrsError {
    fn from(value: PagingError) -> (r: Self) {
        IvrsError::Mapping(value)
    }
}

impl FromSpecImpl<PagingError> for IvrsError {
    open spec fn obeys_from_spec() -> bool {
        true
    }

    open spec fn from_spec(value: PagingError) -> Self {
        IvrsError::Mapping(value)
    }
}

#[derive(Clone, Copy, Debug, PartialEq, Eq)]
pub enum IvrsBlock {
    Ivhd(Ivhd),
    Ivmd(Ivmd),
    Unknown(IvrsUnknown),
}

impl View for IvrsBlock {
    type V = IvrsBlock;

    open spec fn view(&self) -> IvrsBlock {
        *self
    }
}

#[derive(Clone, Copy, Debug, PartialEq, Eq)]
pub struct IvrsUnknown {
    pub kind: u8,
    pub offset: usize,
    pub length: usize,
}

/// Hardware definition block: one AMD-Vi unit.
#[derive(Clone, Copy, Debug, PartialEq, Eq)]
pub struct Ivhd {
    pub block_type: u8,
    pub flags: u8,
    pub registers: MmioAddrRange,
    pub device: PciDevice,
    pub capability_offset: u16,
    pub iommu_info: u16,
    pub feature_info: Option<u32>,
    pub efr: Option<u64>,
    pub include_all: bool,
    pub has_device_scopes: bool,
    /// Where the block starts in its table.
    pub block_offset: usize,
    /// The number of bytes of the block.
    pub length: usize,
}

impl Ivhd {
    pub fn segment(self) -> (r: u16)
        ensures
            r == self.device.spec_segment(),
    {
        self.device.segment()
    }

    pub fn bdf(self) -> (r: Bdf)
        ensures
            r == self.device.spec_bdf(),
    {
        self.device.bdf()
    }

    /// Bit 4 of the flags.
    pub fn iotlb_support(self) -> (r: bool)
        ensures
            r == (self.flags / 0x10 % 2 == 1),
    {
        self.flags / 0x10 % 2 == 1
    }

    /// Bit 5 of the flags.
    pub fn coherent(self) -> (r: bool)
        ensures
            r == (self.flags / 0x20 % 2 == 1),
    {
        self.flags / 0x20 % 2 == 1
    }

    /// Bit 6 of the flags.
    pub fn prefsup(self) -> (r: bool)
        ensures
            r == (self.flags / 0x40 % 2 == 1),
    {
        self.flags / 0x40 % 2 == 1
    }

    /// Bit 7 of the flags.
    pub fn pprsup(self) -> (r: bool)
        ensures
            r == (self.flags / 0x80 % 2 == 1),
    {
        self.flags / 0x80 % 2 == 1
    }
}

/// Memory definition block: memory that devices reach untranslated.
#[derive(Clone, Copy, Debug, PartialEq, Eq)]
pub struct Ivmd {
    pub ivmd_type: u8,
    pub flags: u8,
    pub device_id: Bdf,
    pub aux_device_id: Bdf,
    pub memory: PhysAddrRange,
}

impl Ivmd {
    pub fn is_all_devices(self) -> (r: bool)
        ensures
            r == (self.ivmd_type == 0x20),
    {
        self.ivmd_type == IVMD_TYPE_ALL
    }

    pub fn is_specified(self) -> (r: bool)
        ensures
            r == (self.ivmd_type == 0x21),
    {
        self.ivmd_type == IVMD_TYPE_SPECIFIED
    }

    pub fn is_range(self) -> (r: bool)
        ensures
            r == (self.ivmd_type == 0x22),
    {
        self.ivmd_type == IVMD_TYPE_RANGE
    }

    pub fn start_address(self) -> (r: PhysAddr)
        ensures
            r == self.memory.start,
    {
        self.memory.start
    }

    /// The last address of the memory, which is not empty.
    pub fn limit_address(self) -> (r: PhysAddr)
        requires
            self.memory.end.0 > 0,
        ensures
            r == PhysAddr((self.memory.end.0 - 1) as usize),
    {
        PhysAddr::from_usize(self.memory.end.as_usize() - 1)
    }
}

#[derive(Clone, Copy, Debug, PartialEq, Eq)]
pub enum IvhdDeviceEntry<'a> {
    Pad,
    All { data_setting: u8 },
    Select { device_id: Bdf, data_setting: u8 },
    Range { start: Bdf, end: Bdf, data_setting: u8 },
    AliasSelect { device_id: Bdf, source: Bdf, data_setting: u8 },
    AliasRange { start: Bdf, end: Bdf, source: Bdf, data_setting: u8 },
    ExtendedSelect { device_id: Bdf, data_setting: u8, extended_data_setting: u32 },
    ExtendedRange { start: Bdf, end: Bdf, data_setting: u8, extended_data_setting: u32 },
    Special { device_id: Bdf, variety: u8 },
    AcpiNamed {
        device_id: Bdf,
        data_setting: u8,
        hardware_id: u64,
        compatible_id: u64,
        uid_format: u8,
        uid: &'a [u8],
    },
}

/// A device entry with its bytes as a sequence.
pub enum DeviceEntry {
    Pad,
    All { data_setting: u8 },
    Select { device_id: Bdf, data_setting: u8 },
    Range { start: Bdf, end: Bdf, data_setting: u8 },
    AliasSelect { device_id: Bdf, source: Bdf, data_setting: u8 },
    AliasRange { start: Bdf, end: Bdf, source: Bdf, data_setting: u8 },
    ExtendedSelect { device_id: Bdf, data_setting: u8, extended_data_setting: u32 },
    ExtendedRange { start: Bdf, end: Bdf, data_setting: u8, extended_data_setting: u32 },
    Special { device_id: Bdf, variety: u8 },
    AcpiNamed {
        device_id: Bdf,
        data_setting: u8,
        hardware_id: u64,
        compatible_id: u64,
        uid_format: u8,
        uid: Seq<u8>,
    },
}

impl<'a> View for IvhdDeviceEntry<'a> {
    type V = DeviceEntry;

    open spec fn view(&self) -> DeviceEntry {
        match *self {
            IvhdDeviceEntry::Pad => DeviceEntry::Pad,
            IvhdDeviceEntry::All { data_setting } => DeviceEntry::All { data_setting },
            IvhdDeviceEntry::Select { device_id, data_setting } => DeviceEntry::Select {
                device_id,
                data_setting,
            },
            IvhdDeviceEntry::Range { start, end, data_setting } => DeviceEntry::Range {
                start,
                end,
                data_setting,
            },
            IvhdDeviceEntry::AliasSelect { device_id, source, data_setting } => {
                DeviceEntry::AliasSelect { device_id, source, data_setting }
            },
            IvhdDeviceEntry::AliasRange { start, end, source, data_setting } => {
                DeviceEntry::AliasRange { start, end, source, data_setting }
            },
            IvhdDeviceEntry::ExtendedSelect { device_id, data_setting, extended_data_setting } => {
                DeviceEntry::ExtendedSelect { device_id, data_setting, extended_data_setting }
            },
            IvhdDeviceEntry::ExtendedRange { start, end, data_setting, extended_data_setting } => {
                DeviceEntry::ExtendedRange { start, end, data_setting, extended_data_setting }
            },
            IvhdDeviceEntry::Special { device_id, variety } => DeviceEntry::Special {
                device_id,
                variety,
            },
            IvhdDeviceEntry::AcpiNamed {
                device_id,
                data_setting,
                hardware_id,
                compatible_id,
                uid_format,
                uid,
            } => DeviceEntry::AcpiNamed {
                device_id,
                data_setting,
                hardware_id,
                compatible_id,
                uid_format,
                uid: uid@,
            },
        }
    }
}

/// First entry of a device range whose last entry is still to come.
#[derive(Clone, Copy, Debug, PartialEq, Eq)]
pub struct PendingIvhdRange {
    pub start: Bdf,
    pub kind: PendingIvhdRangeKind,
    pub data_setting: u8,
}

#[derive(Clone, Copy, Debug, PartialEq, Eq)]
pub enum PendingIvhdRangeKind {
    Plain,
    Alias { source: Bdf },
    Extended { extended_data_setting: u32 },
}

/// Where the device entries of a block of the given type start.
pub open spec fn spec_device_entries_offset(block_type: u8) -> int {
    if block_type == 0x11 || block_type == 0x40 {
        40
    } else {
        24
    }
}

pub fn device_entries_offset(block_type: u8) -> (r: usize)
    ensures
        r == spec_device_entries_offset(block_type),
{
    match block_type {
        IVHD_TYPE_11H | IVHD_TYPE_40H => IVHD_11H_DEVICE_ENTRIES_OFFSET,
        _ => IVHD_10H_DEVICE_ENTRIES_OFFSET,
    }
}

/// The number of bytes of the device entry at `at`.
pub open spec fn entry_size(s: Seq<u8>, at: int) -> int {
    if s[at] == 0xf0 {
        22 + s[at + 21]
    } else if s[at] == 0x42 || s[at] == 0x43 || s[at] == 0x46 || s[at] == 0x47 || s[at] == 0x48 {
        8
    } else {
        4
    }
}

/// The device entry that the end of a range completes.
pub open spec fn completed_range(first: PendingIvhdRange, end: Bdf) -> DeviceEntry {
    match first.kind {
        PendingIvhdRangeKind::Plain => DeviceEntry::Range {
            start: first.start,
            end,
            data_setting: first.data_setting,
        },
        PendingIvhdRangeKind::Alias { source } => DeviceEntry::AliasRange {
            start: first.start,
            end,
            source,
            data_setting: first.data_setting,
        },
        PendingIvhdRangeKind::Extended { extended_data_setting } => DeviceEntry::ExtendedRange {
            start: first.start,
            end,
            data_setting: first.data_setting,
            extended_data_setting,
        },
    }
}

/// What the bytes of one device entry mean behind a range that may have been
/// started: the entry that they complete, if any, and the range that is open
/// behind them.
pub open spec fn entry_meaning(s: Seq<u8>, at: int, open: Option<PendingIvhdRange>) -> Result<
    (Option<DeviceEntry>, Option<PendingIvhdRange>),
    IvrsError,
> {
    let device_id = Bdf(crate::bytes::le16(s, at + 2));
    let data_setting = s[at + 1];
    let second_id = Bdf(crate::bytes::le16(s, at + 6));
    let extended_data_setting = crate::bytes::le32(s, at + 4);
    let kind = s[at];
    if kind == 0x00 {
        Ok((Some(DeviceEntry::Pad), open))
    } else if kind == 0x01 {
        Ok((Some(DeviceEntry::All { data_setting }), open))
    } else if kind == 0x02 {
        Ok((Some(DeviceEntry::Select { device_id, data_setting }), open))
    } else if kind == 0x03 {
        let first = PendingIvhdRange {
            start: device_id,
            kind: PendingIvhdRangeKind::Plain,
            data_setting,
        };
        Ok((None, Some(first)))
    } else if kind == 0x43 {
        let first = PendingIvhdRange {
            start: device_id,
            kind: PendingIvhdRangeKind::Alias { source: second_id },
            data_setting,
        };
        Ok((None, Some(first)))
    } else if kind == 0x47 {
        let first = PendingIvhdRange {
            start: device_id,
            kind: PendingIvhdRangeKind::Extended { extended_data_setting },
            data_setting,
        };
        Ok((None, Some(first)))
    } else if kind == 0x04 {
        match open {
            None => Ok((None, None)),
            Some(first) => if device_id.0 < first.start.0 {
                Err(IvrsError::Malformed("IVHD device range is reversed"))
            } else {
                Ok((Some(completed_range(first, device_id)), None))
            },
        }
    } else if kind == 0x42 {
        Ok((Some(DeviceEntry::AliasSelect { device_id, source: second_id, data_setting }), open))
    } else if kind == 0x46 {
        Ok(
            (
                Some(
                    DeviceEntry::ExtendedSelect { device_id, data_setting, extended_data_setting },
                ),
                open,
            ),
        )
    } else if kind == 0x48 {
        Ok((Some(DeviceEntry::Special { device_id: second_id, variety: data_setting }), open))
    } else if kind == 0xf0 {
        Ok(
            (
                Some(
                    DeviceEntry::AcpiNamed {
                        device_id: Bdf(crate::bytes::le16(s, at + 1)),
                        data_setting: s[at + 3],
                        hardware_id: crate::bytes::le64(s, at + 4),
                        compatible_id: crate::bytes::le64(s, at + 12),
                        uid_format: s[at + 20],
                        uid: s.subrange(at + 22, at + 22 + s[at + 21]),
                    },
                ),
                open,
            ),
        )
    } else {
        Ok((None, open))
    }
}

/// The device entries of the block at `block`, which is `length` bytes long,
/// from `offset` in the block on. An entry of a type above 0xf0 ends the list,
/// and one that leaves the table is bad.
pub open spec fn device_entries(
    s: Seq<u8>,
    block: int,
    length: int,
    offset: int,
    open: Option<PendingIvhdRange>,
) -> Walk<DeviceEntry, IvrsError>
    decreases length - offset,
{
    let at = block + offset;
    if offset >= length {
        Walk::end()
    } else if at >= s.len() {
        Walk::fail(IvrsError::Malformed("IVRS table read is out of bounds"))
    } else if s[at] > 0xf0 {
        Walk::end()
    } else if s[at] == 0xf0 && offset + 22 > length {
        Walk::fail(
            IvrsError::Malformed("IVHD ACPI named device entry truncated before UID length"),
        )
    } else if s[at] == 0xf0 && at + 22 > s.len() {
        Walk::fail(IvrsError::Malformed("IVRS table read is out of bounds"))
    } else if offset + entry_size(s, at) > length {
        Walk::fail(IvrsError::Malformed("IVHD device entry extends past block"))
    } else if at + entry_size(s, at) > s.len() {
        Walk::fail(IvrsError::Malformed("IVRS table read is out of bounds"))
    } else {
        match entry_meaning(s, at, open) {
            Err(error) => Walk::fail(error),
            Ok((entry, open)) => {
                let rest = device_entries(s, block, length, offset + entry_size(s, at), open);
                match entry {
                    Some(entry) => Walk::cons(entry, rest),
                    None => rest,
                }
            },
        }
    }
}

/// Reader of the device entries of one block.
#[derive(Clone, Copy, Debug)]
pub struct IvhdDeviceEntries<'a> {
    sdt: &'a [u8],
    block_offset: usize,
    block_length: usize,
    offset: usize,
    pending_range_start: Option<PendingIvhdRange>,
}

impl<'a> IvhdDeviceEntries<'a> {
    /// The entries that are still to be read.
    pub closed spec fn remaining(self) -> Walk<DeviceEntry, IvrsError> {
        device_entries(
            self.sdt@,
            self.block_offset as int,
            self.block_length as int,
            self.offset as int,
            self.pending_range_start,
        )
    }

    /// The number of bytes that are still to be read.
    pub closed spec fn bytes_left(self) -> int {
        if self.offset < self.block_length {
            self.block_length - self.offset
        } else {
            0
        }
    }

    fn new(sdt: &'a [u8], block_offset: usize, entries_offset: usize, block_length: usize) -> (r:
        Self)
        ensures
            r.remaining() == device_entries(
                sdt@,
                block_offset as int,
                block_length as int,
                entries_offset as int,
                None,
            ),
    {
        IvhdDeviceEntries {
            sdt,
            block_offset,
            block_length,
            offset: entries_offset,
            pending_range_start: None,
        }
    }

    /// The next entry, or what is wrong with it. A bad entry stays the next
    /// one.
    pub fn next(&mut self) -> (r: Option<Result<IvhdDeviceEntry<'a>, IvrsError>>)
        ensures
            !(r matches Some(Ok(_))) ==> final(self).remaining() == old(self).remaining(),
            match r {
                None => old(self).remaining() == Walk::<DeviceEntry, IvrsError>::end(),
                Some(Err(error)) => old(self).remaining() == Walk::<DeviceEntry, IvrsError>::fail(
                    error,
                ),
                Some(Ok(entry)) => {
                    &&& old(self).remaining().items.len() > 0
                    &&& entry@ == old(self).remaining().items[0]
                    &&& final(self).remaining() == old(self).remaining().rest()
                    &&& final(self).bytes_left() < old(self).bytes_left()
                },
            },
    {
        let sdt = self.sdt;
        let block_length = self.block_length;
        assert(sdt.len() == sdt@.len());
        while self.offset < block_length
            invariant
                self.sdt == sdt,
                self.block_length == block_length,
                self.block_offset == old(self).block_offset,
                self.remaining() == old(self).remaining(),
                self.bytes_left() <= old(self).bytes_left(),
                self.offset >= old(self).offset,
                sdt.len() == sdt@.len(),
            decreases block_length - self.offset,
        {
            let ghost before = *self;
            if self.block_offset >= sdt.len() || self.offset >= sdt.len() - self.block_offset {
                return Some(Err(IvrsError::Malformed("IVRS table read is out of bounds")));
            }
            let at = self.block_offset + self.offset;
            let left = sdt.len() - at;
            let entry_type = sdt[at];
            let room = block_length - self.offset;
            if entry_type > DEVENTRY_ACPI_NAMED {
                return None;
            }
            let size: usize = match entry_type {
                DEVENTRY_ALIAS_SELECT
                | DEVENTRY_ALIAS_RANGE_START
                | DEVENTRY_EXTENDED_SELECT
                | DEVENTRY_EXTENDED_RANGE_START
                | DEVENTRY_SPECIAL => 8,
                DEVENTRY_ACPI_NAMED => {
                    if room < DEVENTRY_ACPI_NAMED_MIN_LENGTH {
                        return Some(
                            Err(
                                IvrsError::Malformed(
                                    "IVHD ACPI named device entry truncated before UID length",
                                ),
                            ),
                        );
                    }
                    if left < DEVENTRY_ACPI_NAMED_MIN_LENGTH {
                        return Some(Err(IvrsError::Malformed("IVRS table read is out of bounds")));
                    }
                    DEVENTRY_ACPI_NAMED_MIN_LENGTH + sdt[at + 21] as usize
                },
                _ => 4,
            };
            if size > room {
                return Some(Err(IvrsError::Malformed("IVHD device entry extends past block")));
            }
            if size > left {
                return Some(Err(IvrsError::Malformed("IVRS table read is out of bounds")));
            }
            assert(size == entry_size(sdt@, at as int));
            let meaning = Self::read_entry(sdt, at, size, self.pending_range_start);
            match meaning {
                Err(error) => return Some(Err(error)),
                Ok((entry, open)) => {
                    self.offset = self.offset + size;
                    self.pending_range_start = open;
                    if let Some(entry) = entry {
                        proof {
                            Walk::lemma_cons(entry@, self.remaining());
                            assert(before.remaining() == Walk::cons(entry@, self.remaining()));
                        }
                        return Some(Ok(entry));
                    }
                },
            }
        }
        None
    }

    /// Reads the device entry of `size` bytes at `at`.
    fn read_entry(
        sdt: &'a [u8],
        at: usize,
        size: usize,
        open: Option<PendingIvhdRange>,
    ) -> (r: Result<(Option<IvhdDeviceEntry<'a>>, Option<PendingIvhdRange>), IvrsError>)
        requires
            at + size <= sdt@.len(),
            sdt@[at as int] <= 0xf0,
            size == entry_size(sdt@, at as int),
        ensures
            match entry_meaning(sdt@, at as int, open) {
                Err(error) => r == Err::<
                    (Option<IvhdDeviceEntry<'a>>, Option<PendingIvhdRange>),
                    _,
                >(error),
                Ok((None, after)) => r == Ok::<_, IvrsError>(
                    (None::<IvhdDeviceEntry<'a>>, after),
                ),
                Ok((Some(entry), after)) => r matches Ok((Some(read), left)) && read@ == entry
                    && left == after,
            },
    {
        assert(sdt.len() == sdt@.len());
        let entry_type = sdt[at];
        if entry_type == DEVENTRY_ACPI_NAMED {
            let entry = IvhdDeviceEntry::AcpiNamed {
                device_id: Bdf::from_u16(get_u16(sdt, at + 1)),
                data_setting: sdt[at + 3],
                hardware_id: get_u64(sdt, at + 4),
                compatible_id: get_u64(sdt, at + 12),
                uid_format: sdt[at + 20],
                uid: vstd::slice::slice_subrange(
                    sdt,
                    at + DEVENTRY_ACPI_NAMED_MIN_LENGTH,
                    at + size,
                ),
            };
            return Ok((Some(entry), open));
        }
        let device_id = Bdf::from_u16(get_u16(sdt, at + 2));
        let data_setting = sdt[at + 1];
        match entry_type {
            DEVENTRY_PAD => Ok((Some(IvhdDeviceEntry::Pad), open)),
            DEVENTRY_ALL => Ok((Some(IvhdDeviceEntry::All { data_setting }), open)),
            DEVENTRY_SELECT => Ok(
                (Some(IvhdDeviceEntry::Select { device_id, data_setting }), open),
            ),
            DEVENTRY_RANGE_START => Ok(
                (
                    None,
                    Some(
                        PendingIvhdRange {
                            start: device_id,
                            kind: PendingIvhdRangeKind::Plain,
                            data_setting,
                        },
                    ),
                ),
            ),
            DEVENTRY_ALIAS_RANGE_START => Ok(
                (
                    None,
                    Some(
                        PendingIvhdRange {
                            start: device_id,
                            kind: PendingIvhdRangeKind::Alias {
                                source: Bdf::from_u16(get_u16(sdt, at + 6)),
                            },
                            data_setting,
                        },
                    ),
                ),
            ),
            DEVENTRY_EXTENDED_RANGE_START => Ok(
                (
                    None,
                    Some(
                        PendingIvhdRange {
                            start: device_id,
                            kind: PendingIvhdRangeKind::Extended {
                                extended_data_setting: get_u32(sdt, at + 4),
                            },
                            data_setting,
                        },
                    ),
                ),
            ),
            DEVENTRY_RANGE_END => match open {
                None => Ok((None, None)),
                Some(first) => {
                    if device_id.as_u16() < first.start.as_u16() {
                        return Err(IvrsError::Malformed("IVHD device range is reversed"));
                    }
                    let entry = match first.kind {
                        PendingIvhdRangeKind::Plain => IvhdDeviceEntry::Range {
                            start: first.start,
                            end: device_id,
                            data_setting: first.data_setting,
                        },
                        PendingIvhdRangeKind::Alias { source } => IvhdDeviceEntry::AliasRange {
                            start: first.start,
                            end: device_id,
                            source,
                            data_setting: first.data_setting,
                        },
                        PendingIvhdRangeKind::Extended { extended_data_setting } => {
                            IvhdDeviceEntry::ExtendedRange {
                                start: first.start,
                                end: device_id,
                                data_setting: first.data_setting,
                                extended_data_setting,
                            }
                        },
                    };
                    Ok((Some(entry), None))
                },
            },
            DEVENTRY_ALIAS_SELECT => Ok(
                (
                    Some(
                        IvhdDeviceEntry::AliasSelect {
                            device_id,
                            source: Bdf::from_u16(get_u16(sdt, at + 6)),
                            data_setting,
                        },
                    ),
                    open,
                ),
            ),
            DEVENTRY_EXTENDED_SELECT => Ok(
                (
                    Some(
                        IvhdDeviceEntry::ExtendedSelect {
                            device_id,
                            data_setting,
                            extended_data_setting: get_u32(sdt, at + 4),
                        },
                    ),
                    open,
                ),
            ),
            DEVENTRY_SPECIAL => Ok(
                (
                    Some(
                        IvhdDeviceEntry::Special {
                            device_id: Bdf::from_u16(get_u16(sdt, at + 6)),
                            variety: data_setting,
                        },
                    ),
                    open,
                ),
            ),
            _ => Ok((None, open)),
        }
    }
}

/// Whether one of the entries stands for all devices.
pub open spec fn names_all(items: Seq<DeviceEntry>) -> bool {
    exists|i: int| 0 <= i < items.len() && (#[trigger] items[i]) is All
}

/// Whether one of the entries stands for devices of its own.
pub open spec fn names_devices(items: Seq<DeviceEntry>) -> bool {
    exists|i: int|
        0 <= i < items.len() && !((#[trigger] items[i]) is All) && !(items[i] is Pad)
}

proof fn lemma_names_step(items: Seq<DeviceEntry>)
    requires
        items.len() > 0,
    ensures
        names_all(items) == (items[0] is All || names_all(items.drop_first())),
        names_devices(items) == (!(items[0] is All) && !(items[0] is Pad) || names_devices(
            items.drop_first(),
        )),
{
    let rest = items.drop_first();
    if names_all(rest) {
        let i = choose|i: int| 0 <= i < rest.len() && (#[trigger] rest[i]) is All;
        assert(items[i + 1] is All);
    }
    if names_all(items) && !(items[0] is All) {
        let i = choose|i: int| 0 <= i < items.len() && (#[trigger] items[i]) is All;
        assert(rest[i - 1] is All);
    }
    if names_devices(rest) {
        let i = choose|i: int|
            0 <= i < rest.len() && !((#[trigger] rest[i]) is All) && !(rest[i] is Pad);
        assert(!(items[i + 1] is All));
    }
    if names_devices(items) && (items[0] is All || items[0] is Pad) {
        let i = choose|i: int|
            0 <= i < items.len() && !((#[trigger] items[i]) is All) && !(items[i] is Pad);
        assert(!(rest[i - 1] is All));
    }
}

/// The hardware definition block of `length` bytes at `offset`.
pub open spec fn ivhd_at(s: Seq<u8>, offset: int, length: int, kind: u8) -> Result<
    Ivhd,
    IvrsError,
> {
    let first = spec_device_entries_offset(kind);
    let entries = device_entries(s, offset, length, first, None);
    let base = crate::bytes::le64(s, offset + 8);
    if length < first {
        Err(IvrsError::Malformed("IVHD block shorter than minimum for its type"))
    } else if entries.error is Some {
        Err(entries.error->0)
    } else if base > usize::MAX {
        Err(IvrsError::Malformed("IVHD base address cannot fit in usize"))
    } else if base + 0x4000 > usize::MAX {
        Err(IvrsError::Malformed("IVHD register window overflows"))
    } else {
        Ok(
            Ivhd {
                block_type: kind,
                flags: s[offset + 1],
                registers: crate::addr::mmio_window(base as usize, 0x4000),
                device: PciDevice::spec_from_segment_bdf(
                    crate::bytes::le16(s, offset + 16),
                    Bdf(crate::bytes::le16(s, offset + 4)),
                ),
                capability_offset: crate::bytes::le16(s, offset + 6),
                iommu_info: crate::bytes::le16(s, offset + 18),
                feature_info: if kind == 0x10 {
                    Some(crate::bytes::le32(s, offset + 20))
                } else {
                    None
                },
                efr: if kind == 0x10 {
                    None
                } else {
                    Some(crate::bytes::le64(s, offset + 24))
                },
                include_all: names_all(entries.items),
                has_device_scopes: names_devices(entries.items),
                block_offset: offset as usize,
                length: length as usize,
            },
        )
    }
}

/// The memory definition block of `length` bytes at `offset`.
pub open spec fn ivmd_at(s: Seq<u8>, offset: int, length: int, kind: u8) -> Result<
    Ivmd,
    IvrsError,
> {
    let start = crate::bytes::le64(s, offset + 8);
    let size = crate::bytes::le64(s, offset + 16);
    if length < 24 {
        Err(IvrsError::Malformed("IVMD block too short"))
    } else if start > usize::MAX || size > usize::MAX {
        Err(IvrsError::Malformed("IVMD memory address cannot fit in usize"))
    } else if size == 0 || start + size > usize::MAX {
        Err(IvrsError::Malformed("IVMD memory range overflows"))
    } else {
        Ok(
            Ivmd {
                ivmd_type: kind,
                flags: s[offset + 1],
                device_id: Bdf(crate::bytes::le16(s, offset + 4)),
                aux_device_id: Bdf(crate::bytes::le16(s, offset + 6)),
                memory: AddrRange {
                    start: PhysAddr(start as usize),
                    end: PhysAddr((start + size) as usize),
                },
            },
        )
    }
}

/// The block of `length` bytes at `offset`, by its kind.
pub open spec fn block_content(s: Seq<u8>, offset: int, length: int, kind: u8) -> Result<
    IvrsBlock,
    IvrsError,
> {
    if kind == 0x10 || kind == 0x11 || kind == 0x40 {
        match ivhd_at(s, offset, length, kind) {
            Ok(unit) => Ok(IvrsBlock::Ivhd(unit)),
            Err(error) => Err(error),
        }
    } else if kind == 0x20 || kind == 0x21 || kind == 0x22 {
        match ivmd_at(s, offset, length, kind) {
            Ok(memory) => Ok(IvrsBlock::Ivmd(memory)),
            Err(error) => Err(error),
        }
    } else {
        Ok(
            IvrsBlock::Unknown(
                IvrsUnknown { kind, offset: offset as usize, length: length as usize },
            ),
        )
    }
}

/// What the block at `offset` holds, and where the next block starts.
pub open spec fn block_at(s: Seq<u8>, offset: int) -> (Result<IvrsBlock, IvrsError>, int) {
    let length = crate::bytes::le16(s, offset + 2) as int;
    if offset + 4 > s.len() {
        (Err(IvrsError::Malformed("IVRS block truncated before header")), s.len() as int)
    } else if length < 4 {
        (Err(IvrsError::Malformed("IVRS block length smaller than header")), s.len() as int)
    } else if offset + length > s.len() {
        (Err(IvrsError::Malformed("IVRS block extends past table length")), s.len() as int)
    } else {
        (block_content(s, offset, length, s[offset]), offset + length)
    }
}

/// The blocks of a table from `offset` on.
pub open spec fn blocks_from(s: Seq<u8>, offset: int) -> Walk<IvrsBlock, IvrsError>
    decreases s.len() - offset,
{
    if offset >= s.len() {
        Walk::end()
    } else {
        match block_at(s, offset) {
            (Err(error), _) => Walk::fail(error),
            (Ok(block), next) => if next > offset {
                Walk::cons(block, blocks_from(s, next))
            } else {
                Walk::cons(block, Walk::end())
            },
        }
    }
}

/// What `table_bytes` refuses a table for, as an error of this table.
pub open spec fn ivrs_fault(fault: SdtFault) -> IvrsError {
    match fault {
        SdtFault::ShortHeader => IvrsError::Malformed("IVRS table shorter than SDT header"),
        SdtFault::Length => IvrsError::Malformed("IVRS table length is invalid"),
        SdtFault::Acpi(error) => IvrsError::Acpi(error),
    }
}

/// I/O virtualization reporting structure.
#[derive(Clone, Copy, Debug)]
pub struct IvrsTable<'a> {
    sdt: &'a [u8],
}

impl<'a> IvrsTable<'a> {
    /// The bytes of the table.
    pub closed spec fn view(self) -> Seq<u8> {
        self.sdt@
    }

    /// The table holds its fixed header.
    pub open spec fn wf(self) -> bool {
        self@.len() >= 48
    }

    /// The table that `bytes` start with.
    pub fn parse(bytes: &'a [u8]) -> (r: Result<Self, IvrsError>)
        ensures
            match crate::firm::acpi::sdt_table(bytes@, Signature([0x49, 0x56, 0x52, 0x53])) {
                Err(fault) => r == Err::<Self, _>(ivrs_fault(fault)),
                Ok(table) => if table.len() < 48 {
                    r == Err::<Self, _>(
                        IvrsError::Malformed("IVRS table shorter than fixed header"),
                    )
                } else {
                    r matches Ok(parsed) && parsed@ == table && parsed.wf()
                },
            },
    {
        let signature = Signature::ivrs();
        assert(signature.0 =~= [0x49u8, 0x56, 0x52, 0x53]);
        let sdt = match table_bytes(bytes, signature) {
            Ok(sdt) => sdt,
            Err(SdtFault::ShortHeader) => return Err(
                IvrsError::Malformed("IVRS table shorter than SDT header"),
            ),
            Err(SdtFault::Length) => return Err(
                IvrsError::Malformed("IVRS table length is invalid"),
            ),
            Err(SdtFault::Acpi(error)) => return Err(IvrsError::Acpi(error)),
        };
        if sdt.len() < IVRS_BLOCKS_OFFSET {
            return Err(IvrsError::Malformed("IVRS table shorter than fixed header"));
        }
        Ok(IvrsTable { sdt })
    }

    pub fn bytes(self) -> (r: &'a [u8])
        ensures
            r@ == self@,
    {
        self.sdt
    }

    pub fn ivinfo(self) -> (r: Result<u32, IvrsError>)
        requires
            self.wf(),
        ensures
            r == Ok::<u32, IvrsError>(crate::bytes::le32(self@, 36)),
    {
        Ok(get_u32(self.sdt, IVRS_IVINFO_OFFSET))
    }

    /// The blocks of the table.
    pub open spec fn spec_blocks(self) -> Walk<IvrsBlock, IvrsError> {
        blocks_from(self@, 48)
    }

    pub fn blocks(self) -> (r: IvrsBlocks<'a>)
        requires
            self.wf(),
        ensures
            r.wf(),
            r.table_bytes() == self@,
            r.position() == 48,
            r.remaining() == self.spec_blocks(),
    {
        IvrsBlocks { table: self, offset: IVRS_BLOCKS_OFFSET }
    }

    fn parse_block(self, offset: usize, length: usize, kind: u8) -> (r: Result<
        IvrsBlock,
        IvrsError,
    >)
        requires
            offset + length <= self@.len(),
        ensures
            r == block_content(self@, offset as int, length as int, kind),
    {
        match kind {
            IVHD_TYPE_10H | IVHD_TYPE_11H | IVHD_TYPE_40H => match self.parse_ivhd(
                offset,
                length,
                kind,
            ) {
                Ok(unit) => Ok(IvrsBlock::Ivhd(unit)),
                Err(error) => Err(error),
            },
            IVMD_TYPE_ALL | IVMD_TYPE_SPECIFIED | IVMD_TYPE_RANGE => match self.parse_ivmd(
                offset,
                length,
                kind,
            ) {
                Ok(memory) => Ok(IvrsBlock::Ivmd(memory)),
                Err(error) => Err(error),
            },
            other => Ok(IvrsBlock::Unknown(IvrsUnknown { kind: other, offset, length })),
        }
    }

    fn parse_ivhd(self, offset: usize, length: usize, block_type: u8) -> (r: Result<
        Ivhd,
        IvrsError,
    >)
        requires
            offset + length <= self@.len(),
        ensures
            r == (if block_type == 0x10 || block_type == 0x11 || block_type == 0x40 {
                ivhd_at(self@, offset as int, length as int, block_type)
            } else {
                Err(IvrsError::Malformed("unsupported IVHD block type"))
            }),
    {
        let sdt = self.sdt;
        assert(sdt.len() == sdt@.len());
        match block_type {
            IVHD_TYPE_10H | IVHD_TYPE_11H | IVHD_TYPE_40H => {},
            _ => return Err(IvrsError::Malformed("unsupported IVHD block type")),
        }
        let entries_offset = device_entries_offset(block_type);
        if length < entries_offset {
            return Err(IvrsError::Malformed("IVHD block shorter than minimum for its type"));
        }
        let mut include_all = false;
        let mut has_device_scopes = false;
        let ghost walk = device_entries(
            self@,
            offset as int,
            length as int,
            entries_offset as int,
            None,
        );
        let mut entries = IvhdDeviceEntries::new(sdt, offset, entries_offset, length);
        loop
            invariant_except_break
                walk == device_entries(
                    self@,
                    offset as int,
                    length as int,
                    entries_offset as int,
                    None,
                ),
                length >= entries_offset,
                entries_offset == spec_device_entries_offset(block_type),
                block_type == 0x10 || block_type == 0x11 || block_type == 0x40,
            invariant
                walk.error == entries.remaining().error,
                names_all(walk.items) == (include_all || names_all(entries.remaining().items)),
                names_devices(walk.items) == (has_device_scopes || names_devices(
                    entries.remaining().items,
                )),
            ensures
                walk.error is None,
                names_all(walk.items) == include_all,
                names_devices(walk.items) == has_device_scopes,
            decreases entries.bytes_left(),
        {
            proof {
                if entries.remaining().items.len() > 0 {
                    lemma_names_step(entries.remaining().items);
                }
            }
            match entries.next() {
                None => break ,
                Some(Err(error)) => return Err(error),
                Some(Ok(entry)) => match entry {
                    IvhdDeviceEntry::All { .. } => include_all = true,
                    IvhdDeviceEntry::Pad => {},
                    _ => has_device_scopes = true,
                },
            }
        }
        let base = get_u64(sdt, offset + 8);
        if base > usize::MAX as u64 {
            return Err(IvrsError::Malformed("IVHD base address cannot fit in usize"));
        }
        let registers = match mmio_window_at(base as usize, AMD_VI_REGISTER_WINDOW_SIZE) {
            Some(registers) => registers,
            None => return Err(IvrsError::Malformed("IVHD register window overflows")),
        };
        Ok(
            Ivhd {
                block_type,
                flags: sdt[offset + 1],
                registers,
                device: PciDevice::from_segment_bdf(
                    get_u16(sdt, offset + 16),
                    Bdf::from_u16(get_u16(sdt, offset + 4)),
                ),
                capability_offset: get_u16(sdt, offset + 6),
                iommu_info: get_u16(sdt, offset + 18),
                feature_info: if block_type == IVHD_TYPE_10H {
                    Some(get_u32(sdt, offset + 20))
                } else {
                    None
                },
                efr: if block_type == IVHD_TYPE_10H {
                    None
                } else {
                    Some(get_u64(sdt, offset + 24))
                },
                include_all,
                has_device_scopes,
                block_offset: offset,
                length,
            },
        )
    }

    fn parse_ivmd(self, offset: usize, length: usize, block_type: u8) -> (r: Result<
        Ivmd,
        IvrsError,
    >)
        requires
            offset + length <= self@.len(),
        ensures
            r == ivmd_at(self@, offset as int, length as int, block_type),
    {
        let sdt = self.sdt;
        assert(sdt.len() == sdt@.len());
        if length < IVMD_MIN_LENGTH {
            return Err(IvrsError::Malformed("IVMD block too short"));
        }
        let start = get_u64(sdt, offset + 8);
        let size = get_u64(sdt, offset + 16);
        if start > usize::MAX as u64 || size > usize::MAX as u64 {
            return Err(IvrsError::Malformed("IVMD memory address cannot fit in usize"));
        }
        if size == 0 {
            return Err(IvrsError::Malformed("IVMD memory range overflows"));
        }
        let memory = match PhysAddrRange::try_from_start_size(
            PhysAddr::from_usize(start as usize),
            size as usize,
        ) {
            Some(memory) => memory,
            None => return Err(IvrsError::Malformed("IVMD memory range overflows")),
        };
        Ok(
            Ivmd {
                ivmd_type: block_type,
                flags: sdt[offset + 1],
                device_id: Bdf::from_u16(get_u16(sdt, offset + 4)),
                aux_device_id: Bdf::from_u16(get_u16(sdt, offset + 6)),
                memory,
            },
        )
    }
}

/// Reader of the blocks of one table.
#[derive(Clone, Copy, Debug)]
pub struct IvrsBlocks<'a> {
    table: IvrsTable<'a>,
    offset: usize,
}

impl<'a> IvrsBlocks<'a> {
    pub closed spec fn table_bytes(self) -> Seq<u8> {
        self.table@
    }

    /// Where the next block starts.
    pub closed spec fn position(self) -> int {
        self.offset as int
    }

    pub open spec fn wf(self) -> bool {
        0 <= self.position()
    }

    /// The blocks that are still to be read.
    pub open spec fn remaining(self) -> Walk<IvrsBlock, IvrsError> {
        blocks_from(self.table_bytes(), self.position())
    }

    /// The next block, or what is wrong with it. Behind a block whose bounds
    /// are bad there is nothing more to read; a block with bad content is
    /// passed over.
    pub fn next(&mut self) -> (r: Option<Result<IvrsBlock, IvrsError>>)
        requires
            old(self).wf(),
        ensures
            final(self).wf(),
            final(self).table_bytes() == old(self).table_bytes(),
            if old(self).position() >= old(self).table_bytes().len() {
                r is None && final(self).position() == old(self).position()
            } else {
                let (content, next) = block_at(old(self).table_bytes(), old(self).position());
                &&& r == Some(content)
                &&& final(self).position() == next
                &&& next > old(self).position()
            },
            match r {
                None => old(self).remaining() == Walk::<IvrsBlock, IvrsError>::end(),
                Some(Err(error)) => old(self).remaining() == Walk::<IvrsBlock, IvrsError>::fail(
                    error,
                ),
                Some(Ok(block)) => {
                    &&& old(self).remaining().items.len() > 0
                    &&& old(self).remaining().items[0] == block
                    &&& final(self).remaining() == old(self).remaining().rest()
                },
            },
    {
        let sdt = self.table.sdt;
        assert(sdt.len() == sdt@.len());
        let offset = self.offset;
        if offset >= sdt.len() {
            return None;
        }
        if sdt.len() - offset < 4 {
            self.offset = sdt.len();
            return Some(Err(IvrsError::Malformed("IVRS block truncated before header")));
        }
        let kind = sdt[offset];
        let length = get_u16(sdt, offset + 2) as usize;
        if length < 4 {
            self.offset = sdt.len();
            return Some(Err(IvrsError::Malformed("IVRS block length smaller than header")));
        }
        if length > sdt.len() - offset {
            self.offset = sdt.len();
            return Some(Err(IvrsError::Malformed("IVRS block extends past table length")));
        }
        self.offset = offset + length;
        let block = self.table.parse_block(offset, length, kind);
        proof {
            if let Ok(content) = block {
                Walk::lemma_cons(content, self.remaining());
            }
        }
        Some(block)
    }

    /// All blocks that are still to be read, where all of them are good.
    pub fn collect(self) -> (r: Result<Vec<IvrsBlock>, IvrsError>)
        requires
            self.wf(),
        ensures
            match self.remaining().all() {
                Err(error) => r == Err::<Vec<IvrsBlock>, _>(error),
                Ok(blocks) => r matches Ok(found) && found@ == blocks,
            },
    {
        let mut blocks = self;
        let mut found: Vec<IvrsBlock> = Vec::new();
        loop
            invariant
                blocks.wf(),
                self.remaining().error == blocks.remaining().error,
                self.remaining().items =~= found@ + blocks.remaining().items,
                blocks.table_bytes() == self.table_bytes(),
            decreases blocks.table_bytes().len() - blocks.position(),
        {
            let ghost before = blocks.remaining();
            match blocks.next() {
                None => {
                    return Ok(found);
                },
                Some(Err(error)) => return Err(error),
                Some(Ok(block)) => {
                    found.push(block);
                    assert(before.items =~= seq![block] + blocks.remaining().items);
                },
            }
        }
    }
}

/// What a callback on device entries may return for an entry.
pub open spec fn entry_outcome<'a, F: Fn(IvhdDeviceEntry<'a>) -> Result<(), IvrsError>>(
    f: F,
) -> spec_fn(DeviceEntry, Result<(), IvrsError>) -> bool {
    |entry: DeviceEntry, r: Result<(), IvrsError>|
        exists|read: IvhdDeviceEntry<'a>| read@ == entry && #[trigger] call_ensures(f, (read,), r)
}

/// What a callback on blocks may return for a block.
pub open spec fn block_outcome<F: Fn(IvrsBlock) -> Result<(), IvrsError>>(f: F) -> spec_fn(
    IvrsBlock,
    Result<(), IvrsError>,
) -> bool {
    |block: IvrsBlock, r: Result<(), IvrsError>| call_ensures(f, (block,), r)
}

/// What a callback on hardware definition blocks may return for a block, where
/// other blocks are passed over.
pub open spec fn ivhd_outcome<F: Fn(u32, Ivhd) -> Result<(), IvrsError>>(
    f: F,
    ivinfo: u32,
) -> spec_fn(IvrsBlock, Result<(), IvrsError>) -> bool {
    |block: IvrsBlock, r: Result<(), IvrsError>|
        match block {
            IvrsBlock::Ivhd(unit) => call_ensures(f, (ivinfo, unit), r),
            _ => r is Ok,
        }
}

/// What a callback on memory definition blocks may return for a block, where
/// other blocks are passed over.
pub open spec fn ivmd_outcome<F: Fn(Ivmd) -> Result<(), IvrsError>>(f: F) -> spec_fn(
    IvrsBlock,
    Result<(), IvrsError>,
) -> bool {
    |block: IvrsBlock, r: Result<(), IvrsError>|
        match block {
            IvrsBlock::Ivmd(memory) => call_ensures(f, (memory,), r),
            _ => r is Ok,
        }
}

/// What a search for the requesters of one unit has found so far.
pub struct RequesterScan {
    /// The unit has been seen.
    pub found: bool,
    /// The unit stands for all requesters.
    pub all: bool,
    /// The requesters of the unit.
    pub runs: Seq<BdfRange>,
}

impl RequesterScan {
    pub open spec fn start() -> Self {
        RequesterScan { found: false, all: false, runs: Seq::empty() }
    }

    /// Adds a run of requesters, for which there may be no room.
    pub open spec fn add_range(self, range: BdfRange) -> Result<Self, IvrsError> {
        match crate::firm::pcie::with_range(
            self.runs,
            range,
            IVRS_REQUESTER_WINDOW_CAPACITY as int,
        ) {
            Some(runs) => Ok(RequesterScan { runs, ..self }),
            None => Err(IvrsError::BdfRanges(BdfRangeSetError::Full)),
        }
    }

    /// Adds the requesters that a device entry names.
    pub open spec fn entry(self, entry: DeviceEntry) -> Result<Self, IvrsError> {
        match entry {
            DeviceEntry::Pad => Ok(self),
            DeviceEntry::All { .. } => Ok(RequesterScan { all: true, ..self }),
            DeviceEntry::Select { device_id, .. } => self.single(device_id),
            DeviceEntry::AliasSelect { device_id, .. } => self.single(device_id),
            DeviceEntry::ExtendedSelect { device_id, .. } => self.single(device_id),
            DeviceEntry::Special { device_id, .. } => self.single(device_id),
            DeviceEntry::AcpiNamed { device_id, .. } => self.single(device_id),
            DeviceEntry::Range { start, end, .. } => self.inclusive(start, end),
            DeviceEntry::AliasRange { start, end, .. } => self.inclusive(start, end),
            DeviceEntry::ExtendedRange { start, end, .. } => self.inclusive(start, end),
        }
    }

    pub open spec fn single(self, device_id: Bdf) -> Result<Self, IvrsError> {
        self.add_range(BdfRange::of(device_id.0 as int, device_id.0 + 1))
    }

    pub open spec fn inclusive(self, start: Bdf, end: Bdf) -> Result<Self, IvrsError> {
        match BdfRange::spec_inclusive(start, end) {
            Ok(range) => self.add_range(range),
            Err(error) => Err(IvrsError::BdfRanges(BdfRangeSetError::InvalidRange(error))),
        }
    }

    /// Adds the requesters that a list of device entries names.
    pub open spec fn entries(self, walk: Walk<DeviceEntry, IvrsError>) -> Result<Self, IvrsError>
        decreases walk.items.len(),
    {
        if walk.items.len() == 0 {
            match walk.error {
                Some(error) => Err(error),
                None => Ok(self),
            }
        } else {
            match self.entry(walk.items[0]) {
                Ok(after) => after.entries(walk.rest()),
                Err(error) => Err(error),
            }
        }
    }

    /// Adds the requesters of a block, where it defines the unit with the
    /// given registers.
    pub open spec fn block(self, s: Seq<u8>, registers: MmioAddrRange, block: IvrsBlock) -> Result<
        Self,
        IvrsError,
    > {
        match block {
            IvrsBlock::Ivhd(unit) => if !unit.registers.same_bounds(registers) {
                Ok(self)
            } else if unit.include_all {
                Ok(RequesterScan { found: true, all: true, ..self })
            } else {
                (RequesterScan { found: true, ..self }).entries(
                    device_entries(
                        s,
                        unit.block_offset as int,
                        unit.length as int,
                        spec_device_entries_offset(unit.block_type),
                        None,
                    ),
                )
            },
            _ => Ok(self),
        }
    }

    /// Adds the requesters of a list of blocks.
    pub open spec fn blocks(
        self,
        s: Seq<u8>,
        registers: MmioAddrRange,
        walk: Walk<IvrsBlock, IvrsError>,
    ) -> Result<Self, IvrsError>
        decreases walk.items.len(),
    {
        if walk.items.len() == 0 {
            match walk.error {
                Some(error) => Err(error),
                None => Ok(self),
            }
        } else {
            match self.block(s, registers, walk.items[0]) {
                Ok(after) => after.blocks(s, registers, walk.rest()),
                Err(error) => Err(error),
            }
        }
    }
}

/// The requesters of the unit with the given registers: `None` where there is
/// no such unit, where it stands for all requesters, or where it names none.
pub open spec fn spec_ivhd_bdf_ranges(s: Seq<u8>, registers: MmioAddrRange) -> Result<
    Option<Seq<BdfRange>>,
    IvrsError,
> {
    match RequesterScan::start().blocks(s, registers, blocks_from(s, 48)) {
        Err(error) => Err(error),
        Ok(scan) => Ok(
            if !scan.found || scan.all || scan.runs.len() == 0 {
                None
            } else {
                Some(scan.runs)
            },
        ),
    }
}

/// Whether a device entry names the requester `id`.
pub open spec fn entry_names(id: int) -> spec_fn(DeviceEntry) -> bool {
    |entry: DeviceEntry|
        match entry {
            DeviceEntry::Pad => false,
            DeviceEntry::All { .. } => false,
            DeviceEntry::Select { device_id, .. } => device_id.0 == id,
            DeviceEntry::AliasSelect { device_id, .. } => device_id.0 == id,
            DeviceEntry::ExtendedSelect { device_id, .. } => device_id.0 == id,
            DeviceEntry::Special { device_id, .. } => device_id.0 == id,
            DeviceEntry::AcpiNamed { device_id, .. } => device_id.0 == id,
            DeviceEntry::Range { start, end, .. } => start.0 <= id <= end.0,
            DeviceEntry::AliasRange { start, end, .. } => start.0 <= id <= end.0,
            DeviceEntry::ExtendedRange { start, end, .. } => start.0 <= id <= end.0,
        }
}

/// Whether a block defines the unit with the given registers and names the
/// requester `id` in one of its device entries.
pub open spec fn block_names(s: Seq<u8>, registers: MmioAddrRange, id: int) -> spec_fn(
    IvrsBlock,
) -> bool {
    |block: IvrsBlock|
        match block {
            IvrsBlock::Ivhd(unit) => unit.registers.same_bounds(registers) && !unit.include_all
                && crate::walk::any(
                device_entries(
                    s,
                    unit.block_offset as int,
                    unit.length as int,
                    spec_device_entries_offset(unit.block_type),
                    None,
                ).items,
                entry_names(id),
            ),
            _ => false,
        }
}

proof fn lemma_entries_add_what_they_name(
    scan: RequesterScan,
    walk: Walk<DeviceEntry, IvrsError>,
    id: int,
)
    requires
        crate::firm::pcie::canonical(scan.runs),
        scan.runs.len() <= IVRS_REQUESTER_WINDOW_CAPACITY,
        scan.entries(walk) is Ok,
    ensures
        ({
            let after = scan.entries(walk)->Ok_0;
            &&& crate::firm::pcie::canonical(after.runs)
            &&& after.runs.len() <= IVRS_REQUESTER_WINDOW_CAPACITY
            &&& crate::firm::pcie::covered(after.runs, id) == (crate::firm::pcie::covered(
                scan.runs,
                id,
            ) || crate::walk::any(walk.items, entry_names(id)))
        }),
    decreases walk.items.len(),
{
    if walk.items.len() > 0 {
        let entry = walk.items[0];
        let after = scan.entry(entry)->Ok_0;
        crate::walk::lemma_any_step(walk.items, entry_names(id));
        let range = match entry {
            DeviceEntry::Pad => BdfRange::of(0, 0),
            DeviceEntry::All { .. } => BdfRange::of(0, 0),
            DeviceEntry::Select { device_id, .. } => BdfRange::of(
                device_id.0 as int,
                device_id.0 + 1,
            ),
            DeviceEntry::AliasSelect { device_id, .. } => BdfRange::of(
                device_id.0 as int,
                device_id.0 + 1,
            ),
            DeviceEntry::ExtendedSelect { device_id, .. } => BdfRange::of(
                device_id.0 as int,
                device_id.0 + 1,
            ),
            DeviceEntry::Special { device_id, .. } => BdfRange::of(
                device_id.0 as int,
                device_id.0 + 1,
            ),
            DeviceEntry::AcpiNamed { device_id, .. } => BdfRange::of(
                device_id.0 as int,
                device_id.0 + 1,
            ),
            DeviceEntry::Range { start, end, .. } => BdfRange::of(start.0 as int, end.0 + 1),
            DeviceEntry::AliasRange { start, end, .. } => BdfRange::of(start.0 as int, end.0 + 1),
            DeviceEntry::ExtendedRange { start, end, .. } => BdfRange::of(
                start.0 as int,
                end.0 + 1,
            ),
        };
        match entry {
            DeviceEntry::Pad => {},
            DeviceEntry::All { .. } => {},
            DeviceEntry::Select { device_id, .. } => {
                BdfRange::lemma_of_bounds(device_id.0 as int, device_id.0 + 1);
            },
            DeviceEntry::AliasSelect { device_id, .. } => {
                BdfRange::lemma_of_bounds(device_id.0 as int, device_id.0 + 1);
            },
            DeviceEntry::ExtendedSelect { device_id, .. } => {
                BdfRange::lemma_of_bounds(device_id.0 as int, device_id.0 + 1);
            },
            DeviceEntry::Special { device_id, .. } => {
                BdfRange::lemma_of_bounds(device_id.0 as int, device_id.0 + 1);
            },
            DeviceEntry::AcpiNamed { device_id, .. } => {
                BdfRange::lemma_of_bounds(device_id.0 as int, device_id.0 + 1);
            },
            DeviceEntry::Range { start, end, .. } => {
                BdfRange::lemma_of_bounds(start.0 as int, end.0 + 1);
            },
            DeviceEntry::AliasRange { start, end, .. } => {
                BdfRange::lemma_of_bounds(start.0 as int, end.0 + 1);
            },
            DeviceEntry::ExtendedRange { start, end, .. } => {
                BdfRange::lemma_of_bounds(start.0 as int, end.0 + 1);
            },
        }
        if !(entry is Pad) && !(entry is All) {
            crate::firm::pcie::law_adding_a_range_adds_its_identities(
                scan.runs,
                range,
                IVRS_REQUESTER_WINDOW_CAPACITY as int,
            );
            assert(range.has(id) == entry_names(id)(entry));
        }
        assert(walk.rest().items == walk.items.drop_first());
        lemma_entries_add_what_they_name(after, walk.rest(), id);
    }
}

pub(crate) proof fn lemma_blocks_add_what_they_name(
    scan: RequesterScan,
    s: Seq<u8>,
    registers: MmioAddrRange,
    walk: Walk<IvrsBlock, IvrsError>,
    id: int,
)
    requires
        crate::firm::pcie::canonical(scan.runs),
        scan.runs.len() <= IVRS_REQUESTER_WINDOW_CAPACITY,
        scan.blocks(s, registers, walk) is Ok,
    ensures
        ({
            let after = scan.blocks(s, registers, walk)->Ok_0;
            &&& crate::firm::pcie::canonical(after.runs)
            &&& crate::firm::pcie::covered(after.runs, id) == (crate::firm::pcie::covered(
                scan.runs,
                id,
            ) || crate::walk::any(walk.items, block_names(s, registers, id)))
        }),
    decreases walk.items.len(),
{
    if walk.items.len() > 0 {
        let after = scan.block(s, registers, walk.items[0])->Ok_0;
        crate::walk::lemma_any_step(walk.items, block_names(s, registers, id));
        match walk.items[0] {
            IvrsBlock::Ivhd(unit) => {
                if unit.registers.same_bounds(registers) && !unit.include_all {
                    lemma_entries_add_what_they_name(
                        RequesterScan { found: true, ..scan },
                        device_entries(
                            s,
                            unit.block_offset as int,
                            unit.length as int,
                            spec_device_entries_offset(unit.block_type),
                            None,
                        ),
                        id,
                    );
                }
            },
            _ => {},
        }
        lemma_blocks_add_what_they_name(after, s, registers, walk.rest(), id);
    }
}

/// The runs that are returned for a unit are in order and apart, and cover
/// exactly the requesters that the device entries of the unit's blocks name.
pub proof fn law_ivhd_ranges_cover_exactly_the_named_requesters(
    s: Seq<u8>,
    registers: MmioAddrRange,
    id: int,
)
    requires
        spec_ivhd_bdf_ranges(s, registers) matches Ok(Some(_)),
    ensures
        spec_ivhd_bdf_ranges(s, registers) matches Ok(Some(runs)) && {
            &&& crate::firm::pcie::canonical(runs)
            &&& crate::firm::pcie::covered(runs, id) <==> crate::walk::any(
                blocks_from(s, 48).items,
                block_names(s, registers, id),
            )
        },
{
    lemma_blocks_add_what_they_name(
        RequesterScan::start(),
        s,
        registers,
        blocks_from(s, 48),
        id,
    );
}

/// A unit that a table holds lies in the table, so none of its device entries
/// leaves it.
pub proof fn law_unit_lies_in_its_table(s: Seq<u8>, offset: int)
    requires
        0 <= offset < s.len(),
        s.len() <= usize::MAX,
    ensures
        block_at(s, offset).0 matches Ok(IvrsBlock::Ivhd(unit)) ==> unit.block_offset + unit.length
            <= s.len(),
{
}

impl<'a> IvrsTable<'a> {
    /// Reader of the device entries of a unit.
    pub fn device_entries(self, unit: Ivhd) -> (r: IvhdDeviceEntries<'a>)
        ensures
            r.remaining() == device_entries(
                self@,
                unit.block_offset as int,
                unit.length as int,
                spec_device_entries_offset(unit.block_type),
                None,
            ),
    {
        IvhdDeviceEntries::new(
            self.sdt,
            unit.block_offset,
            device_entries_offset(unit.block_type),
            unit.length,
        )
    }

    /// Hands the device entries of a block to a visitor.
    pub fn walk_device_entries<V: Visitor<IvhdDeviceEntry<'a>, IvrsError>>(
        self,
        block_offset: usize,
        entries_offset: usize,
        block_length: usize,
        visitor: &mut V,
    ) -> (r: Result<(), IvrsError>)
        requires
            old(visitor).ready(),
        ensures
            final(visitor).ready(),
            final(visitor).unused() == old(visitor).unused(),
            crate::walk::logged(
                device_entries(
                    self@,
                    block_offset as int,
                    block_length as int,
                    entries_offset as int,
                    None,
                ),
                old(visitor).log(),
                final(visitor).log(),
                r,
            ),
    {
        let mut entries = IvhdDeviceEntries::new(
            self.sdt,
            block_offset,
            entries_offset,
            block_length,
        );
        let ghost walk = device_entries(
                    self@,
                    block_offset as int,
                    block_length as int,
                    entries_offset as int,
                    None,
                );
        let ghost base = visitor.log();
        proof {
            crate::walk::lemma_handing_begins(walk, base);
        }
        loop
            invariant
                walk == device_entries(
                    self@,
                    block_offset as int,
                    block_length as int,
                    entries_offset as int,
                    None,
                ),
                base == old(visitor).log(),
                visitor.ready(),
                visitor.unused() == old(visitor).unused(),
                crate::walk::under_way(walk, entries.remaining(), base, visitor.log()),
            decreases entries.bytes_left(),
        {
            let ghost rest = entries.remaining();
            let ghost log = visitor.log();
            match entries.next() {
                None => {
                    proof {
                        crate::walk::lemma_handing_ends(walk, rest, base, log);
                    }
                    return Ok(());
                },
                Some(Err(error)) => {
                    proof {
                        crate::walk::lemma_handing_ends(walk, rest, base, log);
                    }
                    return Err(error);
                },
                Some(Ok(entry)) => {
                    let returned = visitor.visit(entry);
                    proof {
                        crate::walk::lemma_handing_goes_on(walk, rest, base, log, returned);
                    }
                    if returned.is_err() {
                        return returned;
                    }
                },
            }
        }
    }

    /// Hands the blocks of the table to a visitor.
    pub fn visit_blocks<V: Visitor<IvrsBlock, IvrsError>>(self, visitor: &mut V) -> (r: Result<
        (),
        IvrsError,
    >)
        requires
            self.wf(),
            old(visitor).ready(),
        ensures
            final(visitor).ready(),
            final(visitor).unused() == old(visitor).unused(),
            crate::walk::logged(
                self.spec_blocks(),
                old(visitor).log(),
                final(visitor).log(),
                r,
            ),
    {
        let mut blocks = self.blocks();
        let ghost walk = self.spec_blocks();
        let ghost base = visitor.log();
        proof {
            crate::walk::lemma_handing_begins(walk, base);
        }
        loop
            invariant
                blocks.wf(),
                walk == self.spec_blocks(),
                base == old(visitor).log(),
                visitor.ready(),
                visitor.unused() == old(visitor).unused(),
                crate::walk::under_way(walk, blocks.remaining(), base, visitor.log()),
            decreases blocks.table_bytes().len() - blocks.position(),
        {
            let ghost rest = blocks.remaining();
            let ghost log = visitor.log();
            match blocks.next() {
                None => {
                    proof {
                        crate::walk::lemma_handing_ends(walk, rest, base, log);
                    }
                    return Ok(());
                },
                Some(Err(error)) => {
                    proof {
                        crate::walk::lemma_handing_ends(walk, rest, base, log);
                    }
                    return Err(error);
                },
                Some(Ok(block)) => {
                    let returned = visitor.visit(block);
                    proof {
                        crate::walk::lemma_handing_goes_on(walk, rest, base, log, returned);
                    }
                    if returned.is_err() {
                        return returned;
                    }
                },
            }
        }
    }

    /// Hands the blocks of the table to `f`.
    pub fn for_each_block<F>(self, f: F) -> (r: Result<(), IvrsError>) where
        F: Fn(IvrsBlock) -> Result<(), IvrsError>,

        requires
            self.wf(),
            forall|block: IvrsBlock| call_requires(f, (block,)),
        ensures
            crate::walk::visited(block_outcome(f), self.spec_blocks(), r),
    {
        let mut visitor = Visits::new(f);
        let ghost start = visitor;
        let r = self.visit_blocks(&mut visitor);
        proof {
            visitor.lemma_calls(start, f);
            assert(visitor.log().skip(0) =~= visitor.log());
            crate::walk::law_handed_records_are_visited(
                block_outcome(f),
                self.spec_blocks(),
                visitor.log(),
                r,
            );
        }
        r
    }

    /// Hands the hardware definition blocks of the table to `f`, with the
    /// table's virtualization information.
    pub fn for_each_ivhd<F>(self, f: F) -> (r: Result<(), IvrsError>) where
        F: Fn(u32, Ivhd) -> Result<(), IvrsError>,

        requires
            self.wf(),
            forall|ivinfo: u32, unit: Ivhd| call_requires(f, (ivinfo, unit)),
        ensures
            crate::walk::visited(
                ivhd_outcome(f, crate::bytes::le32(self@, 36)),
                self.spec_blocks(),
                r,
            ),
    {
        let ivinfo = match self.ivinfo() {
            Ok(ivinfo) => ivinfo,
            Err(error) => return Err(error),
        };
        let ghost outcome = ivhd_outcome(f, ivinfo);
        let on_block = |block: IvrsBlock| -> (r: Result<(), IvrsError>)
            ensures
                outcome(block, r),
            {
                match block {
                    IvrsBlock::Ivhd(unit) => f(ivinfo, unit),
                    _ => Ok(()),
                }
            };
        let returned = self.for_each_block(on_block);
        proof {
            crate::walk::lemma_visited_weaken(
                block_outcome(on_block),
                outcome,
                self.spec_blocks(),
                returned,
            );
        }
        returned
    }

    /// Hands the memory definition blocks of the table to `f`.
    pub fn for_each_ivmd<F>(self, f: F) -> (r: Result<(), IvrsError>) where
        F: Fn(Ivmd) -> Result<(), IvrsError>,

        requires
            self.wf(),
            forall|memory: Ivmd| call_requires(f, (memory,)),
        ensures
            crate::walk::visited(ivmd_outcome(f), self.spec_blocks(), r),
    {
        let ghost outcome = ivmd_outcome(f);
        let on_block = |block: IvrsBlock| -> (r: Result<(), IvrsError>)
            ensures
                outcome(block, r),
            {
                match block {
                    IvrsBlock::Ivmd(memory) => f(memory),
                    _ => Ok(()),
                }
            };
        let returned = self.for_each_block(on_block);
        proof {
            crate::walk::lemma_visited_weaken(
                block_outcome(on_block),
                outcome,
                self.spec_blocks(),
                returned,
            );
        }
        returned
    }

    /// The requesters that the unit with the given registers remaps, where it
    /// names them one by one.
    pub fn ivhd_bdf_ranges(self, registers: MmioAddrRange) -> (r: Result<
        Option<IvrsBdfRangeSet>,
        IvrsError,
    >)
        requires
            self.wf(),
        ensures
            match spec_ivhd_bdf_ranges(self@, registers) {
                Err(error) => r == Err::<Option<IvrsBdfRangeSet>, _>(error),
                Ok(None) => r == Ok::<_, IvrsError>(None::<IvrsBdfRangeSet>),
                Ok(Some(runs)) => r matches Ok(Some(set)) && set.wf() && set@ == runs,
            },
    {
        let mut found = false;
        let mut all = false;
        let mut ranges = IvrsBdfRangeSet::empty();
        let mut blocks = self.blocks();
        let ghost total = RequesterScan::start().blocks(self@, registers, blocks.remaining());
        loop
            invariant_except_break
                self.wf(),
                blocks.wf(),
                blocks.table_bytes() == self@,
                total == RequesterScan::start().blocks(self@, registers, blocks_from(self@, 48)),
                total == (RequesterScan { found, all, runs: ranges@ }).blocks(
                    self@,
                    registers,
                    blocks.remaining(),
                ),
            invariant
                ranges.wf(),
            ensures
                total == Ok::<_, IvrsError>(RequesterScan { found, all, runs: ranges@ }),
            decreases blocks.table_bytes().len() - blocks.position(),
        {
            match blocks.next() {
                None => break ,
                Some(Err(error)) => return Err(error),
                Some(Ok(IvrsBlock::Ivhd(unit))) => {
                    if unit.registers.has_bounds_of(registers) {
                        found = true;
                        if unit.include_all {
                            all = true;
                        } else {
                            match self.scan_device_entries(unit, all, &mut ranges) {
                                Ok(seen) => all = seen,
                                Err(error) => return Err(error),
                            }
                        }
                    }
                },
                Some(Ok(_)) => {},
            }
        }
        if !found || all || ranges.is_empty() {
            return Ok(None);
        }
        Ok(Some(ranges))
    }

    /// Adds the requesters of one unit to `ranges`, and tells whether an entry
    /// so far stands for all requesters.
    fn scan_device_entries(self, unit: Ivhd, all: bool, ranges: &mut IvrsBdfRangeSet) -> (r:
        Result<bool, IvrsError>)
        requires
            old(ranges).wf(),
        ensures
            final(ranges).wf(),
            match (RequesterScan { found: true, all, runs: old(ranges)@ }).entries(
                device_entries(
                    self@,
                    unit.block_offset as int,
                    unit.length as int,
                    spec_device_entries_offset(unit.block_type),
                    None,
                ),
            ) {
                Ok(scan) => r matches Ok(seen) && scan == (RequesterScan {
                    found: true,
                    all: seen,
                    runs: final(ranges)@,
                }),
                Err(error) => r == Err::<bool, _>(error),
            },
    {
        let mut seen = all;
        let mut entries = self.device_entries(unit);
        let ghost walk = entries.remaining();
        loop
            invariant
                walk == device_entries(
                    self@,
                    unit.block_offset as int,
                    unit.length as int,
                    spec_device_entries_offset(unit.block_type),
                    None,
                ),
                ranges.wf(),
                (RequesterScan { found: true, all, runs: old(ranges)@ }).entries(walk)
                    == (RequesterScan { found: true, all: seen, runs: ranges@ }).entries(
                    entries.remaining(),
                ),
            decreases entries.bytes_left(),
        {
            match entries.next() {
                None => return Ok(seen),
                Some(Err(error)) => return Err(error),
                Some(Ok(entry)) => {
                    let added = match entry {
                        IvhdDeviceEntry::Pad => Ok(()),
                        IvhdDeviceEntry::All { .. } => {
                            seen = true;
                            Ok(())
                        },
                        IvhdDeviceEntry::Select { device_id, .. }
                        | IvhdDeviceEntry::AliasSelect { device_id, .. }
                        | IvhdDeviceEntry::ExtendedSelect { device_id, .. }
                        | IvhdDeviceEntry::Special { device_id, .. }
                        | IvhdDeviceEntry::AcpiNamed { device_id, .. } => {
                            ranges.insert_single::<IvrsError>(device_id)
                        },
                        IvhdDeviceEntry::Range { start, end, .. }
                        | IvhdDeviceEntry::AliasRange { start, end, .. }
                        | IvhdDeviceEntry::ExtendedRange { start, end, .. } => {
                            match BdfRange::inclusive(start, end) {
                                Ok(range) => ranges.insert::<IvrsError>(range),
                                Err(error) => Err(
                                    IvrsError::BdfRanges(BdfRangeSetError::from(error)),
                                ),
                            }
                        },
                    };
                    if let Err(error) = added {
                        return Err(error);
                    }
                },
            }
        }
    }
}

} // verus!
