//! PCI requester identities and the sets of them that firmware tables describe.

use vstd::prelude::*;
use vstd::std_specs::convert::FromSpecImpl;

verus! {

/// Requester identity of one PCI function: bus, device and function number in
/// 16 bits.
#[derive(Clone, Copy, Debug, Default, PartialEq, Eq, PartialOrd, Ord, Hash, Structural)]
pub struct Bdf(pub u16);

impl Bdf {
    /// The identity made of the three numbers, with the first number out of
    /// range as the error.
    pub open spec fn spec_new(bus: u8, device: u8, function: u8) -> Result<
        Self,
        PciDeviceError,
    > {
        if device >= 32 {
            Err(PciDeviceError::DeviceOutOfRange)
        } else if function >= 8 {
            Err(PciDeviceError::FunctionOutOfRange)
        } else {
            Ok(Bdf((bus * 256 + device * 8 + function) as u16))
        }
    }

    pub fn new(bus: u8, device: u8, function: u8) -> (r: Result<Self, PciDeviceError>)
        ensures
            r == Self::spec_new(bus, device, function),
    {
        if device >= 32 {
            return Err(PciDeviceError::DeviceOutOfRange);
        }
        if function >= 8 {
            return Err(PciDeviceError::FunctionOutOfRange);
        }
        Ok(Bdf((bus as u16) * 256 + (device as u16) * 8 + (function as u16)))
    }

    pub fn from_bus_device_function(bus: u8, device: u8, function: u8) -> (r: Result<
        Self,
        PciDeviceError,
    >)
        ensures
            r == Self::spec_new(bus, device, function),
    {
        Self::new(bus, device, function)
    }

    pub fn from_u16(bdf: u16) -> (r: Self)
        ensures
            r == Bdf(bdf),
    {
        Bdf(bdf)
    }

    pub fn as_u16(self) -> (r: u16)
        ensures
            r == self.0,
    {
        self.0
    }

    pub fn as_u32(self) -> (r: u32)
        ensures
            r == self.0,
    {
        self.0 as u32
    }

    pub open spec fn spec_bus(self) -> u8 {
        (self.0 / 256) as u8
    }

    pub open spec fn spec_device(self) -> u8 {
        (self.0 / 8 % 32) as u8
    }

    pub open spec fn spec_function(self) -> u8 {
        (self.0 % 8) as u8
    }

    pub fn bus(self) -> (r: u8)
        ensures
            r == self.spec_bus(),
    {
        (self.0 / 256) as u8
    }

    pub fn device(self) -> (r: u8)
        ensures
            r == self.spec_device(),
            r < 32,
    {
        (self.0 / 8 % 32) as u8
    }

    pub fn function(self) -> (r: u8)
        ensures
            r == self.spec_function(),
            r < 8,
    {
        (self.0 % 8) as u8
    }

    pub fn checked_add(self, n: u16) -> (r: Option<Self>)
        ensures
            r == (if self.0 + n <= u16::MAX {
                Some(Bdf((self.0 + n) as u16))
            } else {
                None
            }),
    {
        match self.0.checked_add(n) {
            Some(value) => Some(Bdf(value)),
            None => None,
        }
    }

    pub fn offset_from(self, base: Bdf) -> (r: Option<u16>)
        ensures
            r == (if base.0 <= self.0 {
                Some((self.0 - base.0) as u16)
            } else {
                None
            }),
    {
        self.0.checked_sub(base.0)
    }
}

impl From<u16> for Bdf {
    fn from(value: u16) -> (r: Self) {
        Bdf(value)
    }
}

impl FromSpecImpl<u16> for Bdf {
    open spec fn obeys_from_spec() -> bool {
        true
    }

    open spec fn from_spec(value: u16) -> Self {
        Bdf(value)
    }
}

impl From<Bdf> for u16 {
    fn from(value: Bdf) -> (r: Self) {
        value.0
    }
}

impl FromSpecImpl<Bdf> for u16 {
    open spec fn obeys_from_spec() -> bool {
        true
    }

    open spec fn from_spec(value: Bdf) -> Self {
        value.0
    }
}

/// The numbers that make up a requester identity can be read back from it.
pub proof fn law_bdf_parts_round_trip(bus: u8, device: u8, function: u8)
    requires
        device < 32,
        function < 8,
    ensures
        Bdf::spec_new(bus, device, function) matches Ok(bdf) && bdf.spec_bus() == bus
            && bdf.spec_device() == device && bdf.spec_function() == function,
{
    let packed: int = bus * 256 + device * 8 + function;
    assert(packed / 8 == bus * 32 + device);
    assert(packed % 8 == function);
    assert((bus * 32 + device) % 32 == device);
    assert(packed / 256 == bus);
}

/// Every requester identity is the one made of its own bus, device and
/// function number.
pub proof fn law_bdf_is_made_of_its_parts(bdf: Bdf)
    ensures
        Bdf::spec_new(bdf.spec_bus(), bdf.spec_device(), bdf.spec_function())
            == Ok::<Bdf, PciDeviceError>(bdf),
{
}

#[derive(Clone, Copy, Debug, PartialEq, Eq, Structural)]
pub enum PciDeviceError {
    DeviceOutOfRange,
    FunctionOutOfRange,
}

/// Segment, bus, device and function number of a PCI function.
#[derive(Clone, Copy, Debug, PartialEq, Eq, Structural)]
pub struct PciAddress {
    pub segment: u16,
    pub bus: u8,
    pub device: u8,
    pub function: u8,
}

impl PciAddress {
    pub fn new(segment: u16, bus: u8, device: u8, function: u8) -> (r: Self)
        requires
            device < 32,
            function < 8,
        ensures
            r == (PciAddress { segment, bus, device, function }),
    {
        PciAddress { segment, bus, device, function }
    }
}

/// PCI function in one segment: the segment above the requester identity.
#[derive(Clone, Copy, Debug, PartialEq, Eq, PartialOrd, Ord, Hash, Structural)]
pub struct PciDevice(pub u32);

impl PciDevice {
    pub open spec fn spec_from_segment_bdf(segment: u16, bdf: Bdf) -> Self {
        PciDevice((segment * 0x1_0000 + bdf.0) as u32)
    }

    pub open spec fn spec_new(segment: u16, bus: u8, device: u8, function: u8) -> Result<
        Self,
        PciDeviceError,
    > {
        match Bdf::spec_new(bus, device, function) {
            Ok(bdf) => Ok(Self::spec_from_segment_bdf(segment, bdf)),
            Err(error) => Err(error),
        }
    }

    pub open spec fn spec_bdf(self) -> Bdf {
        Bdf((self.0 % 0x1_0000) as u16)
    }

    pub open spec fn spec_segment(self) -> u16 {
        (self.0 / 0x1_0000) as u16
    }

    pub fn new(segment: u16, bus: u8, device: u8, function: u8) -> (r: Result<
        Self,
        PciDeviceError,
    >)
        ensures
            r == Self::spec_new(segment, bus, device, function),
    {
        match Bdf::new(bus, device, function) {
            Ok(bdf) => Ok(Self::from_segment_bdf(segment, bdf)),
            Err(error) => Err(error),
        }
    }

    pub fn from_segment_bdf(segment: u16, bdf: Bdf) -> (r: Self)
        ensures
            r == Self::spec_from_segment_bdf(segment, bdf),
    {
        PciDevice((segment as u32) * 0x1_0000 + (bdf.0 as u32))
    }

    pub fn from_address(address: PciAddress) -> (r: Result<Self, PciDeviceError>)
        ensures
            r == Self::spec_new(
                address.segment,
                address.bus,
                address.device,
                address.function,
            ),
    {
        Self::new(address.segment, address.bus, address.device, address.function)
    }

    pub fn as_addr(self) -> (r: PciAddress)
        ensures
            r == (PciAddress {
                segment: self.spec_segment(),
                bus: self.spec_bdf().spec_bus(),
                device: self.spec_bdf().spec_device(),
                function: self.spec_bdf().spec_function(),
            }),
    {
        PciAddress::new(self.segment(), self.bus(), self.device(), self.function())
    }

    pub fn from_u32(packed: u32) -> (r: Self)
        ensures
            r == PciDevice(packed),
    {
        PciDevice(packed)
    }

    pub fn as_u32(self) -> (r: u32)
        ensures
            r == self.0,
    {
        self.0
    }

    pub fn bdf(self) -> (r: Bdf)
        ensures
            r == self.spec_bdf(),
    {
        Bdf((self.0 % 0x1_0000) as u16)
    }

    pub fn segment(self) -> (r: u16)
        ensures
            r == self.spec_segment(),
    {
        (self.0 / 0x1_0000) as u16
    }

    pub fn bus(self) -> (r: u8)
        ensures
            r == self.spec_bdf().spec_bus(),
    {
        self.bdf().bus()
    }

    pub fn device(self) -> (r: u8)
        ensures
            r == self.spec_bdf().spec_device(),
            r < 32,
    {
        self.bdf().device()
    }

    pub fn function(self) -> (r: u8)
        ensures
            r == self.spec_bdf().spec_function(),
            r < 8,
    {
        self.bdf().function()
    }
}

/// A device keeps the segment and the requester identity that it is made of.
pub proof fn law_pci_device_parts_round_trip(segment: u16, bdf: Bdf)
    ensures
        PciDevice::spec_from_segment_bdf(segment, bdf).spec_segment() == segment,
        PciDevice::spec_from_segment_bdf(segment, bdf).spec_bdf() == bdf,
{
}

/// The address of a device gives the device back.
pub proof fn law_pci_device_address_round_trip(device: PciDevice)
    ensures
        PciDevice::spec_new(
            device.spec_segment(),
            device.spec_bdf().spec_bus(),
            device.spec_bdf().spec_device(),
            device.spec_bdf().spec_function(),
        ) == Ok::<PciDevice, PciDeviceError>(device),
{
    law_bdf_is_made_of_its_parts(device.spec_bdf());
}

/// Run of requester identities from `start` to before `end_exclusive`.
#[derive(Clone, Copy, Debug, Default, PartialEq, Eq, Structural)]
pub struct BdfRange {
    start: Bdf,
    end_exclusive: u32,
}

impl BdfRange {
    /// The first identity of the run.
    pub closed spec fn lo(self) -> int {
        self.start.0 as int
    }

    /// The number behind the last identity of the run.
    pub closed spec fn hi(self) -> int {
        self.end_exclusive as int
    }

    /// The run from `lo` to before `hi`.
    pub closed spec fn of(lo: int, hi: int) -> Self {
        BdfRange { start: Bdf(lo as u16), end_exclusive: hi as u32 }
    }

    /// The bounds are in order and inside the requester space.
    pub open spec fn wf(self) -> bool {
        0 <= self.lo() <= self.hi() <= 0x1_0000 && self.lo() <= 0xffff
    }

    /// Whether `id` belongs to the run.
    pub open spec fn has(self, id: int) -> bool {
        self.lo() <= id < self.hi()
    }

    /// A run is determined by its bounds.
    pub proof fn lemma_of(self)
        requires
            self.wf(),
        ensures
            Self::of(self.lo(), self.hi()) == self,
    {
    }

    /// The run made of two bounds has these bounds.
    pub proof fn lemma_of_bounds(lo: int, hi: int)
        requires
            0 <= lo <= hi <= 0x1_0000,
            lo <= 0xffff,
        ensures
            Self::of(lo, hi).lo() == lo,
            Self::of(lo, hi).hi() == hi,
            Self::of(lo, hi).wf(),
    {
    }

    /// The run without identities.
    pub fn empty() -> (r: Self)
        ensures
            r.wf(),
            r == Self::of(0, 0),
            r.lo() == 0,
            r.hi() == 0,
    {
        BdfRange { start: Bdf(0), end_exclusive: 0 }
    }

    pub fn single(bdf: Bdf) -> (r: Self)
        ensures
            r.wf(),
            r == Self::of(bdf.0 as int, bdf.0 + 1),
            r.lo() == bdf.0,
            r.hi() == bdf.0 + 1,
    {
        BdfRange { start: bdf, end_exclusive: bdf.as_u32() + 1 }
    }

    pub open spec fn spec_inclusive(start: Bdf, end: Bdf) -> Result<Self, BdfRangeError> {
        if end.0 < start.0 {
            Err(BdfRangeError::Reversed)
        } else {
            Ok(Self::of(start.0 as int, end.0 + 1))
        }
    }

    pub fn inclusive(start: Bdf, end: Bdf) -> (r: Result<Self, BdfRangeError>)
        ensures
            r == Self::spec_inclusive(start, end),
            r matches Ok(range) ==> range.wf() && range.lo() == start.0 && range.hi() == end.0 + 1,
    {
        if end.as_u16() < start.as_u16() {
            return Err(BdfRangeError::Reversed);
        }
        Ok(BdfRange { start, end_exclusive: end.as_u32() + 1 })
    }

    pub fn start(self) -> (r: Bdf)
        ensures
            r.0 == self.lo(),
    {
        self.start
    }

    pub fn end_inclusive(self) -> (r: Option<Bdf>)
        requires
            self.wf(),
        ensures
            r == (if self.lo() == self.hi() {
                None
            } else {
                Some(Bdf((self.hi() - 1) as u16))
            }),
    {
        if self.is_empty() {
            return None;
        }
        Some(Bdf::from_u16((self.end_exclusive - 1) as u16))
    }

    pub fn len(self) -> (r: u32)
        requires
            self.wf(),
        ensures
            r == self.hi() - self.lo(),
    {
        self.end_exclusive - self.start.as_u32()
    }

    pub fn is_empty(self) -> (r: bool)
        ensures
            r == (self.lo() == self.hi()),
    {
        self.end_exclusive == self.start.as_u32()
    }

    pub fn contains(self, bdf: Bdf) -> (r: bool)
        ensures
            r == self.has(bdf.0 as int),
    {
        let raw: u32 = bdf.as_u32();
        self.start.as_u32() <= raw && raw < self.end_exclusive
    }

    /// The run with the given bounds, where they are bounds of a run.
    fn from_bounds(start: u32, end_exclusive: u32) -> (r: Result<Self, BdfRangeError>)
        ensures
            r == (if start > u16::MAX || end_exclusive > u16::MAX + 1 {
                Err(BdfRangeError::OutOfRange)
            } else if end_exclusive < start {
                Err(BdfRangeError::Reversed)
            } else {
                Ok(Self::of(start as int, end_exclusive as int))
            }),
    {
        if start > u16::MAX as u32 || end_exclusive > (u16::MAX as u32) + 1 {
            return Err(BdfRangeError::OutOfRange);
        }
        if end_exclusive < start {
            return Err(BdfRangeError::Reversed);
        }
        Ok(BdfRange { start: Bdf::from_u16(start as u16), end_exclusive })
    }
}

/// Whether `id` belongs to one of the runs.
pub open spec fn covered(runs: Seq<BdfRange>, id: int) -> bool {
    exists|i: int| 0 <= i < runs.len() && (#[trigger] runs[i]).has(id)
}

/// Runs in order, none of them empty, with a gap between each two.
pub open spec fn canonical(runs: Seq<BdfRange>) -> bool {
    &&& forall|i: int| 0 <= i < runs.len() ==> (#[trigger] runs[i]).wf() && runs[i].lo() < runs[i].hi()
    &&& forall|i: int, j: int|
        0 <= i < j < runs.len() ==> (#[trigger] runs[i]).hi() < (#[trigger] runs[j]).lo()
}

/// The first run from `i` on that does not end before `range` starts.
pub open spec fn first_touching(runs: Seq<BdfRange>, range: BdfRange, i: int) -> int
    decreases runs.len() - i,
{
    if i < 0 || i >= runs.len() || runs[i].hi() >= range.lo() {
        i
    } else {
        first_touching(runs, range, i + 1)
    }
}

/// The first run from `j` on that starts behind the end of `range`.
pub open spec fn first_behind(runs: Seq<BdfRange>, range: BdfRange, j: int) -> int
    decreases runs.len() - j,
{
    if j < 0 || j >= runs.len() || runs[j].lo() > range.hi() {
        j
    } else {
        first_behind(runs, range, j + 1)
    }
}

/// The run that `range` and the runs `[from, to)` which it overlaps or adjoins
/// make together.
pub open spec fn joined(runs: Seq<BdfRange>, range: BdfRange, from: int, to: int) -> BdfRange {
    if from >= to {
        range
    } else {
        BdfRange::of(
            if runs[from].lo() < range.lo() {
                runs[from].lo()
            } else {
                range.lo()
            },
            if runs[to - 1].hi() > range.hi() {
                runs[to - 1].hi()
            } else {
                range.hi()
            },
        )
    }
}

/// The runs after adding `range` to at most `capacity` runs, or `None` where
/// that takes one run too many.
pub open spec fn with_range(runs: Seq<BdfRange>, range: BdfRange, capacity: int) -> Option<
    Seq<BdfRange>,
> {
    if range.lo() == range.hi() {
        Some(runs)
    } else {
        let from = first_touching(runs, range, 0);
        let to = first_behind(runs, range, from);
        if from == to && runs.len() == capacity {
            None
        } else {
            Some(
                runs.subrange(0, from) + seq![joined(runs, range, from, to)] + runs.subrange(
                    to,
                    runs.len() as int,
                ),
            )
        }
    }
}

proof fn lemma_first_touching(runs: Seq<BdfRange>, range: BdfRange, i: int)
    requires
        0 <= i <= runs.len(),
    ensures
        i <= first_touching(runs, range, i) <= runs.len(),
        forall|k: int|
            i <= k < first_touching(runs, range, i) ==> (#[trigger] runs[k]).hi() < range.lo(),
        first_touching(runs, range, i) < runs.len() ==> runs[first_touching(
            runs,
            range,
            i,
        )].hi() >= range.lo(),
    decreases runs.len() - i,
{
    if i < runs.len() && runs[i].hi() < range.lo() {
        lemma_first_touching(runs, range, i + 1);
    }
}

proof fn lemma_first_behind(runs: Seq<BdfRange>, range: BdfRange, j: int)
    requires
        0 <= j <= runs.len(),
    ensures
        j <= first_behind(runs, range, j) <= runs.len(),
        forall|k: int|
            j <= k < first_behind(runs, range, j) ==> (#[trigger] runs[k]).lo() <= range.hi(),
        first_behind(runs, range, j) < runs.len() ==> runs[first_behind(runs, range, j)].lo()
            > range.hi(),
    decreases runs.len() - j,
{
    if j < runs.len() && runs[j].lo() <= range.hi() {
        lemma_first_behind(runs, range, j + 1);
    }
}

/// Adding a run keeps runs in order and apart, and adds exactly the
/// identities of the run.
pub proof fn law_adding_a_range_adds_its_identities(
    runs: Seq<BdfRange>,
    range: BdfRange,
    capacity: int,
)
    requires
        canonical(runs),
        runs.len() <= capacity,
        range.wf(),
    ensures
        with_range(runs, range, capacity) matches Some(after) ==> {
            &&& canonical(after)
            &&& after.len() <= capacity
            &&& forall|id: int| covered(after, id) == (covered(runs, id) || range.has(id))
        },
{
    if range.lo() != range.hi() {
        let from = first_touching(runs, range, 0);
        let to = first_behind(runs, range, from);
        lemma_first_touching(runs, range, 0);
        lemma_first_behind(runs, range, from);
        if !(from == to && runs.len() == capacity) {
            let new = joined(runs, range, from, to);
            let after = runs.subrange(0, from) + seq![new] + runs.subrange(to, runs.len() as int);
            if from < to {
                let lo = if runs[from].lo() < range.lo() {
                    runs[from].lo()
                } else {
                    range.lo()
                };
                let hi = if runs[to - 1].hi() > range.hi() {
                    runs[to - 1].hi()
                } else {
                    range.hi()
                };
                assert(runs[from].lo() < runs[from].hi());
                assert(runs[to - 1].wf());
                BdfRange::lemma_of_bounds(lo, hi);
                assert(from < to - 1 ==> runs[from].hi() < runs[to - 1].lo());
            }
            assert(after[from] == new);
            assert(forall|k: int| 0 <= k < from ==> #[trigger] after[k] == runs[k]);
            assert(forall|k: int|
                from < k < after.len() ==> #[trigger] after[k] == runs[k - from - 1 + to]);
            assert(canonical(after)) by {
                assert forall|i: int, j: int| 0 <= i < j < after.len() implies (
                #[trigger] after[i]).hi() < (#[trigger] after[j]).lo() by {
                    if i == from {
                        let jj = j - from - 1 + to;
                        assert(runs[jj].lo() > range.hi()) by {
                            assert(runs[to].lo() > range.hi());
                            assert(to < jj ==> runs[to].hi() < runs[jj].lo());
                            assert(runs[to].lo() < runs[to].hi());
                        }
                        assert(from < to ==> runs[to - 1].hi() < runs[jj].lo());
                    } else if j == from {
                        assert(runs[i].hi() < range.lo());
                        assert(from < to ==> runs[i].hi() < runs[from].lo());
                    }
                }
            }
            assert forall|id: int| covered(after, id) == (covered(runs, id) || range.has(id)) by {
                lemma_coverage_of_join(runs, range, from, to, after, id);
            }
        }
    }
}

/// There is no room for a run exactly where it holds an identity, overlaps and
/// adjoins none of the runs, and the runs are as many as there may be. Adding a
/// run makes at most one more.
pub proof fn law_a_range_finds_room_below_capacity(
    runs: Seq<BdfRange>,
    range: BdfRange,
    capacity: int,
)
    requires
        canonical(runs),
        range.wf(),
    ensures
        with_range(runs, range, capacity) is None <==> range.lo() < range.hi() && runs.len()
            == capacity && forall|i: int|
            0 <= i < runs.len() ==> (#[trigger] runs[i]).hi() < range.lo() || range.hi()
                < runs[i].lo(),
        with_range(runs, range, capacity) matches Some(after) ==> after.len() <= runs.len() + 1,
{
    let from = first_touching(runs, range, 0);
    let to = first_behind(runs, range, from);
    lemma_first_touching(runs, range, 0);
    lemma_first_behind(runs, range, from);
    if from < to {
        assert(runs[from].hi() >= range.lo() && runs[from].lo() <= range.hi());
    } else {
        assert forall|i: int| 0 <= i < runs.len() implies (#[trigger] runs[i]).hi() < range.lo()
            || range.hi() < runs[i].lo() by {
            if i >= to {
                assert(runs[to].lo() > range.hi());
                assert(to < i ==> runs[to].hi() < runs[i].lo());
                assert(runs[to].lo() < runs[to].hi());
            }
        }
    }
}

/// The identities of the runs that result from joining `range` with the runs
/// `[from, to)`.
proof fn lemma_coverage_of_join(
    runs: Seq<BdfRange>,
    range: BdfRange,
    from: int,
    to: int,
    after: Seq<BdfRange>,
    id: int,
)
    requires
        canonical(runs),
        range.wf(),
        range.lo() < range.hi(),
        0 <= from <= to <= runs.len(),
        forall|k: int| 0 <= k < from ==> (#[trigger] runs[k]).hi() < range.lo(),
        from < runs.len() ==> runs[from].hi() >= range.lo(),
        forall|k: int| from <= k < to ==> (#[trigger] runs[k]).lo() <= range.hi(),
        to < runs.len() ==> runs[to].lo() > range.hi(),
        after == runs.subrange(0, from) + seq![joined(runs, range, from, to)] + runs.subrange(
            to,
            runs.len() as int,
        ),
    ensures
        covered(after, id) == (covered(runs, id) || range.has(id)),
{
    let new = joined(runs, range, from, to);
    if from < to {
        let lo = if runs[from].lo() < range.lo() {
            runs[from].lo()
        } else {
            range.lo()
        };
        let hi = if runs[to - 1].hi() > range.hi() {
            runs[to - 1].hi()
        } else {
            range.hi()
        };
        assert(runs[from].lo() < runs[from].hi());
        assert(runs[to - 1].wf());
        assert(from < to - 1 ==> runs[from].hi() < runs[to - 1].lo());
        BdfRange::lemma_of_bounds(lo, hi);
        assert(new.lo() == lo && new.hi() == hi);
    }
    assert(after[from] == new);
    assert(forall|k: int| 0 <= k < from ==> #[trigger] after[k] == runs[k]);
    assert(forall|k: int|
        from < k < after.len() ==> #[trigger] after[k] == runs[k - from - 1 + to]);
    if covered(runs, id) {
        let k = choose|k: int| 0 <= k < runs.len() && (#[trigger] runs[k]).has(id);
        if k < from {
            assert(after[k].has(id));
        } else if k < to {
            assert(runs[from].lo() <= runs[k].lo()) by {
                assert(from < k ==> runs[from].hi() < runs[k].lo());
                assert(runs[from].lo() < runs[from].hi());
            }
            assert(runs[k].hi() <= runs[to - 1].hi()) by {
                assert(k < to - 1 ==> runs[k].hi() < runs[to - 1].lo());
                assert(runs[to - 1].lo() < runs[to - 1].hi());
            }
            assert(after[from].has(id));
        } else {
            assert(after[k - to + from + 1].has(id));
        }
    }
    if range.has(id) {
        assert(after[from].has(id));
    }
    if covered(after, id) {
        let k = choose|k: int| 0 <= k < after.len() && (#[trigger] after[k]).has(id);
        if k < from {
            assert(runs[k].has(id));
        } else if k > from {
            assert(runs[k - from - 1 + to].has(id));
        } else if !range.has(id) {
            assert(from < to);
            if id < range.lo() {
                assert(runs[from].has(id));
            } else {
                assert(runs[to - 1].has(id));
            }
        }
    }
}

#[derive(Clone, Copy, Debug, PartialEq, Eq, Structural)]
pub enum BdfRangeError {
    Reversed,
    OutOfRange,
}

impl BdfRangeError {
    /// What went wrong, in words.
    pub fn message(self) -> (r: &'static str)
        ensures
            r@ == self.spec_message(),
    {
        match self {
            BdfRangeError::Reversed => "BDF range end is before start",
            BdfRangeError::OutOfRange => "BDF range bound is outside the PCI requester space",
        }
    }

    pub open spec fn spec_message(self) -> Seq<char> {
        match self {
            BdfRangeError::Reversed => "BDF range end is before start"@,
            BdfRangeError::OutOfRange => "BDF range bound is outside the PCI requester space"@,
        }
    }
}

#[derive(Clone, Copy, Debug, PartialEq, Eq, Structural)]
pub enum BdfRangeSetError {
    Full,
    Overflow,
    InvalidRange(BdfRangeError),
}

impl BdfRangeSetError {
    /// What went wrong, in words.
    pub fn message(self) -> (r: &'static str)
        ensures
            r@ == self.spec_message(),
    {
        match self {
            BdfRangeSetError::Full => "too many BDF ranges",
            BdfRangeSetError::Overflow => "BDF range overflow",
            BdfRangeSetError::InvalidRange(error) => error.message(),
        }
    }

    pub open spec fn spec_message(self) -> Seq<char> {
        match self {
            BdfRangeSetError::Full => "too many BDF ranges"@,
            BdfRangeSetError::Overflow => "BDF range overflow"@,
            BdfRangeSetError::InvalidRange(error) => error.spec_message(),
        }
    }
}

impl From<BdfRangeError> for BdfRangeSetError {
    fn from(value: BdfRangeError) -> (r: Self) {
        BdfRangeSetError::InvalidRange(value)
    }
}

impl FromSpecImpl<BdfRangeError> for BdfRangeSetError {
    open spec fn obeys_from_spec() -> bool {
        true
    }

    open spec fn from_spec(value: BdfRangeError) -> Self {
        BdfRangeSetError::InvalidRange(value)
    }
}

/// Set of requester identities, kept as at most `N` runs in order.
#[derive(Clone, Copy, Debug, PartialEq, Eq)]
pub struct BdfRangeSet<const N: usize> {
    windows: [BdfRange; N],
    count: usize,
}

impl<const N: usize> BdfRangeSet<N> {
    /// The runs of the set.
    pub closed spec fn view(self) -> Seq<BdfRange> {
        self.windows@.subrange(0, self.count as int)
    }

    /// The runs are in order and apart, and the slots behind them are unused.
    pub closed spec fn wf(self) -> bool {
        &&& self.count <= N
        &&& canonical(self@)
        &&& forall|i: int| self.count <= i < N ==> #[trigger] self.windows@[i] == BdfRange::of(0, 0)
    }

    /// The runs of a set are in order and apart, and it has no more of them
    /// than fit.
    pub proof fn law_runs_are_canonical(self)
        requires
            self.wf(),
        ensures
            canonical(self@),
            self@.len() <= N,
    {
    }

    pub fn empty() -> (r: Self)
        ensures
            r.wf(),
            r@ == Seq::<BdfRange>::empty(),
    {
        BdfRangeSet { windows: [BdfRange::empty();N], count: 0 }
    }

    pub fn len(&self) -> (r: usize)
        requires
            self.wf(),
        ensures
            r == self@.len(),
    {
        self.count
    }

    pub fn is_empty(&self) -> (r: bool)
        requires
            self.wf(),
        ensures
            r == (self@.len() == 0),
    {
        self.count == 0
    }

    pub fn as_slice(&self) -> (r: &[BdfRange])
        requires
            self.wf(),
        ensures
            r@ == self@,
    {
        vstd::slice::slice_subrange(&self.windows, 0, self.count)
    }

    /// Adds one identity; `Full` where that takes one run too many.
    pub fn insert_single<E>(&mut self, bdf: Bdf) -> (r: Result<(), E>) where
        E: From<BdfRangeSetError>,

        requires
            old(self).wf(),
        ensures
            final(self).wf(),
            match with_range(old(self)@, BdfRange::of(bdf.0 as int, bdf.0 + 1), N as int) {
                Some(runs) => r is Ok && final(self)@ == runs,
                None => *final(self) == *old(self) && r is Err && (<E as vstd::std_specs::convert::FromSpec<
                    BdfRangeSetError,
                >>::obeys_from_spec() ==> r->Err_0 == <E as vstd::std_specs::convert::FromSpec<
                    BdfRangeSetError,
                >>::from_spec(BdfRangeSetError::Full)),
            },
    {
        self.insert::<E>(BdfRange::single(bdf))
    }

    /// Adds the identities of a run; `Full` where that takes one run too many.
    pub fn insert<E>(&mut self, range: BdfRange) -> (r: Result<(), E>) where
        E: From<BdfRangeSetError>,

        requires
            old(self).wf(),
            range.wf(),
        ensures
            final(self).wf(),
            match with_range(old(self)@, range, N as int) {
                Some(runs) => r is Ok && final(self)@ == runs,
                None => *final(self) == *old(self) && r is Err && (<E as vstd::std_specs::convert::FromSpec<
                    BdfRangeSetError,
                >>::obeys_from_spec() ==> r->Err_0 == <E as vstd::std_specs::convert::FromSpec<
                    BdfRangeSetError,
                >>::from_spec(BdfRangeSetError::Full)),
            },
    {
        match self.add_range(range) {
            Ok(()) => Ok(()),
            Err(error) => Err(E::from(error)),
        }
    }

    /// Adds the identities of a run.
    pub fn add_range(&mut self, range: BdfRange) -> (r: Result<(), BdfRangeSetError>)
        requires
            old(self).wf(),
            range.wf(),
        ensures
            final(self).wf(),
            match with_range(old(self)@, range, N as int) {
                Some(runs) => r is Ok && final(self)@ == runs,
                None => *final(self) == *old(self) && r == Err::<(), _>(BdfRangeSetError::Full),
            },
    {
        if range.is_empty() {
            return Ok(());
        }
        let ghost runs = self@;
        proof {
            law_adding_a_range_adds_its_identities(runs, range, N as int);
        }
        let from = self.touching_from(range);
        let to = self.behind(range, from);
        proof {
            lemma_first_touching(runs, range, 0);
            lemma_first_behind(runs, range, from as int);
        }
        if from == to {
            if self.count == N {
                return Err(BdfRangeSetError::Full);
            }
            self.open_slot(from);
            self.windows[from] = range;
            assert(self@ =~= runs.subrange(0, from as int) + seq![range] + runs.subrange(
                to as int,
                runs.len() as int,
            ));
            return Ok(());
        }
        let first = self.windows[from];
        let last = self.windows[to - 1];
        assert(first == runs[from as int] && last == runs[to - 1]);
        let start: u32 = if first.start.as_u32() < range.start.as_u32() {
            first.start.as_u32()
        } else {
            range.start.as_u32()
        };
        let end: u32 = if last.end_exclusive > range.end_exclusive {
            last.end_exclusive
        } else {
            range.end_exclusive
        };
        proof {
            assert(first.wf() && last.wf());
            assert(from < to - 1 ==> runs[from as int].hi() < runs[to - 1].lo());
        }
        let whole = match BdfRange::from_bounds(start, end) {
            Ok(whole) => whole,
            Err(error) => return Err(BdfRangeSetError::from(error)),
        };
        self.close_slots(from + 1, to);
        self.windows[from] = whole;
        assert(self@ =~= runs.subrange(0, from as int) + seq![whole] + runs.subrange(
            to as int,
            runs.len() as int,
        ));
        Ok(())
    }

    /// The first run that does not end before `range` starts.
    fn touching_from(&self, range: BdfRange) -> (r: usize)
        requires
            self.wf(),
        ensures
            r == first_touching(self@, range, 0),
            r <= self.count,
    {
        let mut i: usize = 0;
        while i < self.count && self.windows[i].end_exclusive < range.start.as_u32()
            invariant
                self.wf(),
                i <= self.count,
                first_touching(self@, range, 0) == first_touching(self@, range, i as int),
            decreases self.count - i,
        {
            i += 1;
        }
        i
    }

    /// The first run from `from` on that starts behind the end of `range`.
    fn behind(&self, range: BdfRange, from: usize) -> (r: usize)
        requires
            self.wf(),
            from <= self.count,
        ensures
            r == first_behind(self@, range, from as int),
            from <= r <= self.count,
    {
        let mut j: usize = from;
        while j < self.count && self.windows[j].start.as_u32() <= range.end_exclusive
            invariant
                self.wf(),
                from <= j <= self.count,
                first_behind(self@, range, from as int) == first_behind(self@, range, j as int),
            decreases self.count - j,
        {
            j += 1;
        }
        j
    }

    /// Moves the runs from `index` on one slot up.
    fn open_slot(&mut self, index: usize)
        requires
            old(self).count < N,
            index <= old(self).count,
        ensures
            final(self).count == old(self).count + 1,
            forall|k: int| 0 <= k < index ==> final(self).windows@[k] == old(self).windows@[k],
            forall|k: int|
                index < k <= old(self).count ==> #[trigger] final(self).windows@[k] == old(
                    self,
                ).windows@[k - 1],
            forall|k: int|
                old(self).count < k < N ==> final(self).windows@[k] == old(self).windows@[k],
    {
        let mut cursor: usize = self.count;
        while cursor > index
            invariant
                self.count == old(self).count,
                self.count < N,
                index <= cursor <= self.count,
                forall|k: int|
                    0 <= k <= cursor && k < N ==> (k == cursor && cursor < self.count)
                        || self.windows@[k] == old(self).windows@[k],
                forall|k: int|
                    cursor < k <= self.count ==> #[trigger] self.windows@[k] == old(
                        self,
                    ).windows@[k - 1],
                forall|k: int|
                    self.count < k < N ==> self.windows@[k] == old(self).windows@[k],
            decreases cursor,
        {
            self.windows[cursor] = self.windows[cursor - 1];
            cursor -= 1;
        }
        self.count += 1;
    }

    /// Drops the runs from `from` to before `to` and moves those behind down.
    fn close_slots(&mut self, from: usize, to: usize)
        requires
            from <= to <= old(self).count <= N,
            forall|i: int|
                old(self).count <= i < N ==> #[trigger] old(self).windows@[i] == BdfRange::of(0, 0),
        ensures
            final(self).count == old(self).count - (to - from),
            forall|k: int| 0 <= k < from ==> final(self).windows@[k] == old(self).windows@[k],
            forall|k: int|
                from <= k < final(self).count ==> #[trigger] final(self).windows@[k] == old(
                    self,
                ).windows@[k + (to - from)],
            forall|i: int|
                final(self).count <= i < N ==> #[trigger] final(self).windows@[i] == BdfRange::of(
                    0,
                    0,
                ),
    {
        let gap: usize = to - from;
        let kept: usize = self.count - gap;
        let mut cursor: usize = from;
        while cursor < kept
            invariant
                self.count == old(self).count,
                self.count <= N,
                kept == self.count - gap,
                gap == to - from,
                from <= to <= self.count,
                from <= cursor <= kept,
                forall|k: int| 0 <= k < from ==> self.windows@[k] == old(self).windows@[k],
                forall|k: int|
                    from <= k < cursor ==> #[trigger] self.windows@[k] == old(self).windows@[k
                        + gap],
                forall|k: int| cursor <= k < N ==> self.windows@[k] == old(self).windows@[k],
            decreases kept - cursor,
        {
            self.windows[cursor] = self.windows[cursor + gap];
            cursor += 1;
        }
        let mut unused: usize = kept;
        while unused < self.count
            invariant
                self.count == old(self).count,
                self.count <= N,
                kept == self.count - gap,
                from <= kept <= unused <= self.count,
                forall|k: int| 0 <= k < from ==> self.windows@[k] == old(self).windows@[k],
                forall|k: int|
                    from <= k < kept ==> #[trigger] self.windows@[k] == old(self).windows@[k + gap],
                forall|k: int|
                    kept <= k < unused ==> #[trigger] self.windows@[k] == BdfRange::of(0, 0),
                forall|k: int| self.count <= k < N ==> self.windows@[k] == old(self).windows@[k],
            decreases self.count - unused,
        {
            self.windows[unused] = BdfRange::empty();
            unused += 1;
        }
        self.count = kept;
    }
}

impl<const N: usize> Default for BdfRangeSet<N> {
    fn default() -> (r: Self)
        ensures
            r.wf(),
            r@ == Seq::<BdfRange>::empty(),
    {
        Self::empty()
    }
}

/// Runs in order and apart are determined by the identities they hold: two
/// sets that hold the same identities have the same runs.
pub proof fn law_runs_are_determined_by_identities(a: Seq<BdfRange>, b: Seq<BdfRange>)
    requires
        canonical(a),
        canonical(b),
        forall|id: int| covered(a, id) == covered(b, id),
    ensures
        a == b,
    decreases a.len(),
{
    if a.len() == 0 {
        if b.len() > 0 {
            assert(b[0].has(b[0].lo()));
            assert(covered(b, b[0].lo()));
            assert(false);
        }
        assert(a =~= b);
    } else {
        assert(a[0].has(a[0].lo()));
        assert(covered(b, a[0].lo()));
        assert(b.len() > 0);
        assert(b[0].has(b[0].lo()));
        assert(covered(a, b[0].lo()));
        lemma_first_run_is_least(a, b[0].lo());
        lemma_first_run_is_least(b, a[0].lo());
        assert(a[0].lo() == b[0].lo());
        lemma_behind_first_run(a);
        lemma_behind_first_run(b);
        if a[0].hi() < b[0].hi() {
            assert(b[0].has(a[0].hi()));
            assert(covered(b, a[0].hi()));
        }
        if b[0].hi() < a[0].hi() {
            assert(a[0].has(b[0].hi()));
            assert(covered(a, b[0].hi()));
        }
        a[0].lemma_of();
        b[0].lemma_of();
        assert(a[0] == b[0]);
        let ta = a.drop_first();
        let tb = b.drop_first();
        assert forall|id: int| covered(ta, id) == covered(tb, id) by {
            lemma_rest_of_runs(a, id);
            lemma_rest_of_runs(b, id);
        }
        assert forall|i: int, j: int| 0 <= i < j < ta.len() implies (#[trigger] ta[i]).hi() < (
        #[trigger] ta[j]).lo() by {
            assert(a[i + 1].hi() < a[j + 1].lo());
        }
        assert forall|i: int, j: int| 0 <= i < j < tb.len() implies (#[trigger] tb[i]).hi() < (
        #[trigger] tb[j]).lo() by {
            assert(b[i + 1].hi() < b[j + 1].lo());
        }
        law_runs_are_determined_by_identities(ta, tb);
        assert(a =~= seq![a[0]] + ta);
        assert(b =~= seq![b[0]] + tb);
    }
}

proof fn lemma_first_run_is_least(runs: Seq<BdfRange>, id: int)
    requires
        canonical(runs),
        covered(runs, id),
    ensures
        runs.len() > 0,
        runs[0].lo() <= id,
{
    let k = choose|k: int| 0 <= k < runs.len() && (#[trigger] runs[k]).has(id);
    if k > 0 {
        assert(runs[0].hi() < runs[k].lo());
        assert(runs[0].lo() < runs[0].hi());
    }
}

proof fn lemma_behind_first_run(runs: Seq<BdfRange>)
    requires
        canonical(runs),
        runs.len() > 0,
    ensures
        !covered(runs, runs[0].hi()),
{
    let id = runs[0].hi();
    if covered(runs, id) {
        let k = choose|k: int| 0 <= k < runs.len() && (#[trigger] runs[k]).has(id);
        assert(k > 0 ==> runs[0].hi() < runs[k].lo());
    }
}

proof fn lemma_rest_of_runs(runs: Seq<BdfRange>, id: int)
    requires
        canonical(runs),
        runs.len() > 0,
    ensures
        covered(runs.drop_first(), id) == (covered(runs, id) && !runs[0].has(id)),
{
    let rest = runs.drop_first();
    if covered(rest, id) {
        let k = choose|k: int| 0 <= k < rest.len() && (#[trigger] rest[k]).has(id);
        assert(runs[k + 1].has(id));
        assert(runs[0].hi() < runs[k + 1].lo());
    }
    if covered(runs, id) && !runs[0].has(id) {
        let k = choose|k: int| 0 <= k < runs.len() && (#[trigger] runs[k]).has(id);
        assert(rest[k - 1].has(id));
    }
}

/// A requester identity has the function in bits `[2:0]`, the device in bits
/// `[7:3]` and the bus in bits `[15:8]`; a device that does not fit is refused
/// first, then a function.
pub proof fn law_bdf_has_its_parts_in_place(bus: u8, device: u8, function: u8, bdf: Bdf)
    ensures
        match Bdf::spec_new(bus, device, function) {
            Ok(made) => device < 32 && function < 8 && made.0 == bus * 0x100 + device * 8
                + function,
            Err(PciDeviceError::DeviceOutOfRange) => device >= 32,
            Err(PciDeviceError::FunctionOutOfRange) => device < 32 && function >= 8,
        },
        bdf.0 == bdf.spec_bus() * 0x100 + bdf.spec_device() * 8 + bdf.spec_function(),
        bdf.spec_device() < 32,
        bdf.spec_function() < 8,
{
}

/// A device has its segment in bits `[31:16]` and its identity on the segment's
/// buses in bits `[15:0]`.
pub proof fn law_pci_device_has_its_parts_in_place(segment: u16, bdf: Bdf, device: PciDevice)
    ensures
        PciDevice::spec_from_segment_bdf(segment, bdf).0 == segment * 0x1_0000 + bdf.0,
        device.0 == device.spec_segment() * 0x1_0000 + device.spec_bdf().0,
{
}

/// A run from one identity to another one holds both and all between them, and
/// is refused where the second is in front of the first.
pub proof fn law_inclusive_range_holds_both_ends(start: Bdf, end: Bdf)
    ensures
        match BdfRange::spec_inclusive(start, end) {
            Ok(range) => start.0 <= end.0 && forall|id: int| #[trigger]
                range.has(id) == (start.0 <= id <= end.0),
            Err(_) => end.0 < start.0,
        },
{
    if start.0 <= end.0 {
        BdfRange::lemma_of_bounds(start.0 as int, end.0 + 1);
    }
}

} // verus!
