//! What a DMA remapping table says of units, regions and requesters, stated
//! over the bytes of the table and the places where its structures and device
//! scopes start.

use vstd::prelude::*;

use super::dmar::{
    DmarAndd, DmarAtsr, DmarDeviceScope, DmarDeviceScopeKind, DmarDrhd, DmarError,
    DmarRequesterMatch, DmarRhsa, DmarRmrr, DmarSatc, DmarSidp, DmarStructure, RequesterScan, Scope,
    Structure,
};
use crate::addr::{Address, MmioAddrRange, PhysAddrRange};
use crate::bytes;
use crate::firm::pcie::{Bdf, BdfRange, PciDevice};
use crate::walk::Walk;

verus! {

/// The structure that starts at `starts[i]` has a header inside the table, and
/// the next one starts where the length in its bytes `[2..4]` ends.
pub open spec fn structure_follows(s: Seq<u8>, starts: Seq<int>, i: int) -> bool {
    &&& starts[i] + 4 <= s.len()
    &&& bytes::le16(s, starts[i] + 2) >= 4
    &&& starts[i + 1] == starts[i] + bytes::le16(s, starts[i] + 2)
}

/// These are the places where the structures of a table start, and its end: the
/// first structure stands behind the fixed header of 48 bytes.
pub open spec fn structure_starts(s: Seq<u8>, starts: Seq<int>) -> bool {
    &&& starts.len() > 0
    &&& starts[0] == 48
    &&& starts.last() == s.len()
    &&& forall|i: int| 0 <= i < starts.len() - 1 ==> #[trigger] structure_follows(s, starts, i)
}

/// The structure at `at` is long enough for its kind, and the addresses in it
/// can be used.
pub open spec fn structure_sound(s: Seq<u8>, at: int) -> bool {
    let kind = bytes::le16(s, at);
    let length = bytes::le16(s, at + 2);
    let base = bytes::le64(s, at + 8);
    let limit = bytes::le64(s, at + 16);
    &&& kind == 0 ==> length >= 16 && base + 0x1000 <= usize::MAX
    &&& kind == 1 ==> length >= 24 && base <= limit && limit + 1 <= usize::MAX && limit < u64::MAX
    &&& kind == 2 ==> length >= 8
    &&& kind == 3 ==> length >= 20 && base + 0x1000 <= usize::MAX
    &&& kind == 4 ==> length >= 8
    &&& kind == 5 ==> length >= 8
    &&& kind == 6 ==> length >= 8
}

/// The registers of a unit: 4 KiB at the address in bytes `[8..16]`.
pub open spec fn has_registers(s: Seq<u8>, at: int, registers: MmioAddrRange) -> bool {
    &&& registers.start.value() == bytes::le64(s, at + 8)
    &&& registers.end.value() == bytes::le64(s, at + 8) + 0x1000
}

/// What was read is what the bytes of the structure at `at` say.
pub open spec fn structure_reads(s: Seq<u8>, at: int, structure: Structure) -> bool {
    let kind = bytes::le16(s, at);
    let length = bytes::le16(s, at + 2) as int;
    match structure {
        Structure::Drhd(unit) => {
            &&& kind == 0
            &&& unit.flags == s[at + 4]
            &&& unit.include_all == (s[at + 4] % 2 == 1)
            &&& unit.segment == bytes::le16(s, at + 6)
            &&& has_registers(s, at, unit.registers)
            &&& unit.has_device_scopes == (length > 16)
            &&& unit.structure_offset == at
            &&& unit.length == length
        },
        Structure::Rmrr(region) => {
            &&& kind == 1
            &&& region.segment == bytes::le16(s, at + 6)
            &&& region.memory.start.0 == bytes::le64(s, at + 8)
            &&& region.memory.end.0 == bytes::le64(s, at + 16) + 1
            &&& region.has_device_scopes == (length > 24)
            &&& region.structure_offset == at
            &&& region.length == length
        },
        Structure::Atsr(unit) => {
            &&& kind == 2
            &&& unit.flags == s[at + 4]
            &&& unit.include_all == (s[at + 4] % 2 == 1)
            &&& unit.segment == bytes::le16(s, at + 6)
            &&& unit.has_device_scopes == (length > 8)
            &&& unit.structure_offset == at
            &&& unit.length == length
        },
        Structure::Rhsa(affinity) => {
            &&& kind == 3
            &&& has_registers(s, at, affinity.registers)
            &&& affinity.proximity_domain == bytes::le32(s, at + 16)
        },
        Structure::Andd { acpi_device_number, object_name } => {
            &&& kind == 4
            &&& acpi_device_number == s[at + 7]
            &&& object_name == s.subrange(at + 8, at + length)
        },
        Structure::Satc(unit) => {
            &&& kind == 5
            &&& unit.flags == s[at + 4]
            &&& unit.atc_required == (s[at + 4] % 2 == 1)
            &&& unit.segment == bytes::le16(s, at + 6)
            &&& unit.has_device_scopes == (length > 8)
            &&& unit.structure_offset == at
            &&& unit.length == length
        },
        Structure::Sidp(unit) => {
            &&& kind == 6
            &&& unit.segment == bytes::le16(s, at + 6)
            &&& unit.has_device_scopes == (length > 8)
            &&& unit.structure_offset == at
            &&& unit.length == length
        },
        Structure::Unknown(other) => {
            &&& kind > 6
            &&& other.kind == kind
            &&& other.offset == at
            &&& other.length == length
        },
    }
}

/// What the structure at `at` holds is read from its own bytes, and it is
/// refused exactly where it is not sound.
#[verifier::rlimit(40)]
proof fn lemma_structure_content(s: Seq<u8>, at: int)
    requires
        0 <= at,
        at + 4 <= s.len(),
        at + bytes::le16(s, at + 2) <= s.len() <= usize::MAX,
    ensures
        match super::dmar::structure_content(
            s,
            at,
            bytes::le16(s, at + 2) as int,
            bytes::le16(s, at),
        ) {
            Ok(structure) => structure_sound(s, at) && structure_reads(s, at, structure),
            Err(_) => !structure_sound(s, at),
        },
{
    let base = bytes::le64(s, at + 8);
    if base + 0x1000 <= usize::MAX {
        crate::addr::law_mmio_window_bounds(base as usize, 0x1000);
    }
}

/// Item `j` is read from the structure `j` places behind the `i`th.
spec fn sound_at(s: Seq<u8>, starts: Seq<int>, i: int, items: Seq<Structure>, j: int) -> bool {
    structure_sound(s, starts[i + j]) && structure_reads(s, starts[i + j], items[j])
}

/// The structures from the `i`th on.
#[verifier::rlimit(40)]
proof fn lemma_structures_from(s: Seq<u8>, starts: Seq<int>, i: int)
    requires
        structure_starts(s, starts),
        s.len() <= usize::MAX,
        0 <= i < starts.len(),
    ensures
        48 <= starts[i] <= s.len(),
        ({
            let walk = super::dmar::structures_from(s, starts[i]);
            let left = starts.len() - 1 - i;
            &&& walk.items.len() <= left
            &&& forall|j: int| 0 <= j < walk.items.len() ==> #[trigger] sound_at(s, starts, i, walk.items, j)
            &&& walk.error is None ==> walk.items.len() == left
            &&& walk.error is Some ==> walk.items.len() < left && !structure_sound(
                s,
                starts[i + walk.items.len()],
            )
        }),
    decreases starts.len() - i,
{
    lemma_starts_in_table(s, starts, i);
    let walk = super::dmar::structures_from(s, starts[i]);
    if i < starts.len() - 1 {
        assert(structure_follows(s, starts, i));
        lemma_starts_in_table(s, starts, i + 1);
        lemma_structures_from(s, starts, i + 1);
        lemma_structure_content(s, starts[i]);
        let rest = super::dmar::structures_from(s, starts[i + 1]);
        if super::dmar::structure_at(s, starts[i]).0 is Ok {
            let first = super::dmar::structure_at(s, starts[i]).0->Ok_0;
            assert(walk == Walk::cons(first, rest));
            Walk::lemma_cons(first, rest);
            assert forall|j: int| 0 <= j < walk.items.len() implies #[trigger] sound_at(
                s,
                starts,
                i,
                walk.items,
                j,
            ) by {
                if j > 0 {
                    assert(walk.rest().items[j - 1] == walk.items[j]);
                    assert(sound_at(s, starts, i + 1, rest.items, j - 1));
                }
            }
            if walk.error is Some {
                assert(starts[i + 1 + rest.items.len()] == starts[i + walk.items.len()]);
            }
        } else {
            assert(walk.items.len() == 0 && walk.error is Some);
            assert(!structure_sound(s, starts[i]));
        }
    } else {
        assert(starts[i] == s.len());
        assert(walk.items.len() == 0 && walk.error is None);
    }
}

/// No structure starts in front of the fixed header or behind the table.
proof fn lemma_starts_in_table(s: Seq<u8>, starts: Seq<int>, i: int)
    requires
        structure_starts(s, starts),
        0 <= i < starts.len(),
    ensures
        48 <= starts[i] <= s.len(),
    decreases i,
{
    if i > 0 {
        lemma_starts_in_table(s, starts, i - 1);
        assert(structure_follows(s, starts, i - 1));
    }
    lemma_starts_below_end(s, starts, i);
}

proof fn lemma_starts_below_end(s: Seq<u8>, starts: Seq<int>, i: int)
    requires
        structure_starts(s, starts),
        0 <= i < starts.len(),
    ensures
        starts[i] <= s.len(),
    decreases starts.len() - i,
{
    if i < starts.len() - 1 {
        lemma_starts_below_end(s, starts, i + 1);
        assert(structure_follows(s, starts, i));
    }
}

/// Every structure of a table is read, in order, from its own bytes; and the
/// table is refused exactly where one of its structures is not sound.
pub proof fn law_structures_are_read_where_they_start(s: Seq<u8>, starts: Seq<int>)
    requires
        structure_starts(s, starts),
        s.len() <= usize::MAX,
    ensures
        ({
            let walk = super::dmar::structures_from(s, 48);
            &&& forall|i: int|
                0 <= i < walk.items.len() ==> structure_reads(s, starts[i], #[trigger] walk.items[i])
            &&& walk.items.len() <= starts.len() - 1
            &&& walk.error is None <==> forall|i: int|
                0 <= i < starts.len() - 1 ==> structure_sound(s, #[trigger] starts[i])
            &&& walk.error is None ==> walk.items.len() == starts.len() - 1
        }),
{
    lemma_structures_from(s, starts, 0);
    let walk = super::dmar::structures_from(s, 48);
    assert forall|i: int| 0 <= i < walk.items.len() implies structure_reads(
        s,
        starts[i],
        #[trigger] walk.items[i],
    ) by {
        assert(sound_at(s, starts, 0, walk.items, i));
    }
    if walk.error is None {
        assert forall|i: int| 0 <= i < starts.len() - 1 implies structure_sound(
            s,
            #[trigger] starts[i],
        ) by {
            assert(sound_at(s, starts, 0, walk.items, i));
        }
    } else {
        let k = walk.items.len() as int;
        assert(!structure_sound(s, starts[k]));
    }
}

/// The scope that starts at `starts[i]` has at least the six bytes of its
/// header and an even number of them, and the next one starts where the length
/// in its second byte ends.
pub open spec fn scope_follows(s: Seq<u8>, starts: Seq<int>, i: int) -> bool {
    &&& s[starts[i] + 1] >= 6
    &&& s[starts[i] + 1] % 2 == 0
    &&& starts[i + 1] == starts[i] + s[starts[i] + 1]
}

/// These are the places where the device scopes between `first` and `end`
/// start, and `end`.
pub open spec fn scope_starts(s: Seq<u8>, first: int, end: int, starts: Seq<int>) -> bool {
    &&& starts.len() > 0
    &&& starts[0] == first
    &&& starts.last() == end
    &&& forall|i: int| 0 <= i < starts.len() - 1 ==> #[trigger] scope_follows(s, starts, i)
}

/// The scope at `at` has a path of one hop to a device that there can be.
pub open spec fn scope_resolved(s: Seq<u8>, at: int) -> bool {
    s[at + 1] == 8 && s[at + 6] < 32 && s[at + 7] < 8
}

/// The scope at `at` stands for the requester `id`: its path is one hop, to the
/// device and function on the start bus.
pub open spec fn scope_stands_for(s: Seq<u8>, at: int, id: int) -> bool {
    scope_resolved(s, at) && s[at + 5] * 256 + s[at + 6] * 8 + s[at + 7] == id
}

/// One of the scopes stands for the requester `id`.
pub open spec fn scopes_name(s: Seq<u8>, starts: Seq<int>, id: int) -> bool {
    exists|i: int| 0 <= i < starts.len() - 1 && scope_stands_for(s, #[trigger] starts[i], id)
}

/// One of the scopes is not resolved.
pub open spec fn scopes_open(s: Seq<u8>, starts: Seq<int>) -> bool {
    exists|i: int| 0 <= i < starts.len() - 1 && !scope_resolved(s, #[trigger] starts[i])
}

/// What was read is what the bytes of the scope at `at` say.
pub open spec fn scope_reads(s: Seq<u8>, at: int, scope: Scope) -> bool {
    &&& scope.kind == (if s[at] == 1 {
        DmarDeviceScopeKind::Endpoint
    } else if s[at] == 2 {
        DmarDeviceScopeKind::Bridge
    } else if s[at] == 3 {
        DmarDeviceScopeKind::IoApic
    } else if s[at] == 4 {
        DmarDeviceScopeKind::Hpet
    } else if s[at] == 5 {
        DmarDeviceScopeKind::NamespaceDevice
    } else {
        DmarDeviceScopeKind::Unknown(s[at])
    })
    &&& scope.flags == s[at + 2]
    &&& scope.enumeration_id == s[at + 4]
    &&& scope.start_bus == s[at + 5]
    &&& scope.path == s.subrange(at + 6, at + s[at + 1])
    &&& scope.requester is Some == scope_resolved(s, at)
    &&& scope.requester matches Some(range) ==> range.wf() && range.lo() == s[at + 5] * 256 + s[at
        + 6] * 8 + s[at + 7] && range.hi() == range.lo() + 1
}

proof fn lemma_scope_reads(s: Seq<u8>, at: int)
    requires
        0 <= at,
        s[at + 1] >= 6,
        s[at + 1] % 2 == 0,
        at + s[at + 1] <= s.len(),
    ensures
        scope_reads(s, at, super::dmar::scope_at(s, at, s[at + 1] as int)),
{
    let size = s[at + 1] as int;
    let path = s.subrange(at + 6, at + size);
    if size == 8 {
        assert(path[0] == s[at + 6] && path[1] == s[at + 7]);
    }
    if scope_resolved(s, at) {
        let id: int = s[at + 5] * 256 + s[at + 6] * 8 + s[at + 7];
        BdfRange::lemma_of_bounds(id, id + 1);
    }
}

proof fn lemma_scope_bounds(s: Seq<u8>, first: int, end: int, starts: Seq<int>, i: int)
    requires
        scope_starts(s, first, end, starts),
        0 <= i < starts.len(),
    ensures
        starts[i] <= end,
        i < starts.len() - 1 ==> starts[i] + s[starts[i] + 1] <= end,
    decreases starts.len() - i,
{
    if i < starts.len() - 1 {
        assert(scope_follows(s, starts, i));
        lemma_scope_bounds(s, first, end, starts, i + 1);
    }
}

proof fn lemma_scopes_from(
    s: Seq<u8>,
    structure: int,
    length: int,
    offset: int,
    starts: Seq<int>,
    i: int,
)
    requires
        scope_starts(s, structure + offset, structure + length, starts),
        0 <= structure,
        0 <= offset,
        structure + length <= s.len(),
        0 <= i < starts.len(),
    ensures
        starts[i] >= structure + offset,
        ({
            let walk = super::dmar::device_scopes(s, structure, length, starts[i] - structure);
            &&& walk.error is None
            &&& walk.items.len() == starts.len() - 1 - i
            &&& forall|j: int|
                0 <= j < walk.items.len() ==> scope_reads(s, starts[i + j], #[trigger] walk.items[j])
        }),
    decreases starts.len() - i,
{
    lemma_scope_lower(s, structure + offset, structure + length, starts, i);
    let walk = super::dmar::device_scopes(s, structure, length, starts[i] - structure);
    if i < starts.len() - 1 {
        assert(scope_follows(s, starts, i));
        lemma_scope_bounds(s, structure + offset, structure + length, starts, i);
        lemma_scopes_from(s, structure, length, offset, starts, i + 1);
        lemma_scope_reads(s, starts[i]);
        let first = super::dmar::scope_at(s, starts[i], s[starts[i] + 1] as int);
        let rest = super::dmar::device_scopes(s, structure, length, starts[i + 1] - structure);
        assert(walk == Walk::cons(first, rest));
        Walk::lemma_cons(first, rest);
        assert forall|j: int| 0 <= j < walk.items.len() implies scope_reads(
            s,
            starts[i + j],
            #[trigger] walk.items[j],
        ) by {
            if j > 0 {
                assert(walk.items[j] == rest.items[j - 1]);
                assert(starts[i + 1 + (j - 1)] == starts[i + j]);
            }
        }
    }
}

proof fn lemma_scope_lower(s: Seq<u8>, first: int, end: int, starts: Seq<int>, i: int)
    requires
        scope_starts(s, first, end, starts),
        0 <= i < starts.len(),
    ensures
        first <= starts[i],
    decreases i,
{
    if i > 0 {
        lemma_scope_lower(s, first, end, starts, i - 1);
        assert(scope_follows(s, starts, i - 1));
    }
}

/// Every device scope of a structure is read, in order, from its own bytes: its
/// kind, its path, and the one requester that a path of one hop leads to.
pub proof fn law_scopes_are_read_where_they_start(
    s: Seq<u8>,
    structure: int,
    length: int,
    offset: int,
    starts: Seq<int>,
)
    requires
        scope_starts(s, structure + offset, structure + length, starts),
        0 <= structure,
        0 <= offset,
        structure + length <= s.len(),
    ensures
        ({
            let walk = super::dmar::device_scopes(s, structure, length, offset);
            &&& walk.error is None
            &&& walk.items.len() == starts.len() - 1
            &&& forall|i: int|
                0 <= i < walk.items.len() ==> scope_reads(s, starts[i], #[trigger] walk.items[i])
        }),
{
    lemma_scopes_from(s, structure, length, offset, starts, 0);
    let walk = super::dmar::device_scopes(s, structure, length, offset);
    assert forall|i: int| 0 <= i < walk.items.len() implies scope_reads(
        s,
        starts[i],
        #[trigger] walk.items[i],
    ) by {
        assert(scope_reads(s, starts[0 + i], walk.items[i]));
    }
}

/// The scopes of a structure name exactly the requesters that their bytes stand
/// for, and leave open exactly those that have no such path.
proof fn lemma_scopes_name(
    s: Seq<u8>,
    structure: int,
    length: int,
    offset: int,
    starts: Seq<int>,
    bdf: Bdf,
)
    requires
        scope_starts(s, structure + offset, structure + length, starts),
        0 <= structure,
        0 <= offset,
        structure + length <= s.len(),
    ensures
        ({
            let walk = super::dmar::device_scopes(s, structure, length, offset);
            &&& walk.error is None
            &&& crate::walk::any(walk.items, super::dmar::scope_has(bdf)) == scopes_name(
                s,
                starts,
                bdf.0 as int,
            )
            &&& crate::walk::any(walk.items, super::dmar::scope_unresolved()) == scopes_open(
                s,
                starts,
            )
        }),
{
    law_scopes_are_read_where_they_start(s, structure, length, offset, starts);
    let walk = super::dmar::device_scopes(s, structure, length, offset);
    let has = super::dmar::scope_has(bdf);
    let unresolved = super::dmar::scope_unresolved();
    let id = bdf.0 as int;
    assert forall|i: int| 0 <= i < walk.items.len() implies has(#[trigger] walk.items[i])
        == scope_stands_for(s, starts[i], id) && unresolved(walk.items[i]) == !scope_resolved(
        s,
        starts[i],
    ) by {
        assert(scope_reads(s, starts[i], walk.items[i]));
    }
    if crate::walk::any(walk.items, has) {
        let i = choose|i: int| 0 <= i < walk.items.len() && has(#[trigger] walk.items[i]);
        assert(scope_stands_for(s, starts[i], id));
    }
    if scopes_name(s, starts, id) {
        let i = choose|i: int|
            0 <= i < starts.len() - 1 && scope_stands_for(s, #[trigger] starts[i], id);
        assert(has(walk.items[i]));
    }
    if crate::walk::any(walk.items, unresolved) {
        let i = choose|i: int| 0 <= i < walk.items.len() && unresolved(#[trigger] walk.items[i]);
        assert(!scope_resolved(s, starts[i]));
    }
    if scopes_open(s, starts) {
        let i = choose|i: int| 0 <= i < starts.len() - 1 && !scope_resolved(s, #[trigger] starts[i]);
        assert(unresolved(walk.items[i]));
    }
}

/// The unit with these registers starts at `at`.
pub open spec fn unit_at(s: Seq<u8>, at: int, registers: MmioAddrRange) -> bool {
    bytes::le16(s, at) == 0 && has_registers(s, at, registers)
}

/// What the unit at `at` is to a requester, given where its scopes start: one of
/// another segment is not its own, one of its segment is where bit 0 of its
/// flags is set or where a scope stands for it, and may be where a scope is not
/// resolved.
pub open spec fn unit_answers(
    s: Seq<u8>,
    at: int,
    scopes: Seq<int>,
    requester: PciDevice,
    answer: DmarRequesterMatch,
) -> bool {
    if bytes::le16(s, at + 6) != requester.0 / 0x1_0000 {
        answer == DmarRequesterMatch::NotCovered
    } else if s[at + 4] % 2 == 1 {
        answer == DmarRequesterMatch::Covered
    } else if scopes_name(s, scopes, (requester.0 % 0x1_0000) as int) {
        answer == DmarRequesterMatch::Covered
    } else if scopes_open(s, scopes) {
        answer == DmarRequesterMatch::Unresolved
    } else {
        answer == DmarRequesterMatch::NotCovered
    }
}

proof fn lemma_unit_match(
    s: Seq<u8>,
    at: int,
    unit: DmarDrhd,
    scopes: Seq<int>,
    requester: PciDevice,
)
    requires
        structure_reads(s, at, Structure::Drhd(unit)),
        structure_sound(s, at),
        0 <= at,
        at + bytes::le16(s, at + 2) <= s.len(),
        scope_starts(s, at + 16, at + bytes::le16(s, at + 2), scopes),
    ensures
        super::dmar::unit_match(s, unit, requester) matches Ok(answer) && unit_answers(
            s,
            at,
            scopes,
            requester,
            answer,
        ),
{
    lemma_scopes_name(
        s,
        at,
        bytes::le16(s, at + 2) as int,
        16,
        scopes,
        requester.spec_bdf(),
    );
}

/// A unit whose flags have bit 0 set remaps every requester of its segment,
/// whatever scopes its structure holds, and none of another segment.
pub proof fn law_catch_all_unit_remaps_its_segment(
    s: Seq<u8>,
    at: int,
    unit: DmarDrhd,
    requester: PciDevice,
)
    requires
        structure_reads(s, at, Structure::Drhd(unit)),
        s[at + 4] % 2 == 1,
    ensures
        super::dmar::unit_match(s, unit, requester) == Ok::<DmarRequesterMatch, DmarError>(
            if bytes::le16(s, at + 6) == requester.0 / 0x1_0000 {
                DmarRequesterMatch::Covered
            } else {
                DmarRequesterMatch::NotCovered
            },
        ),
{
}

/// For each structure of a table, where its device scopes start: those of units
/// behind 16 bytes, those of regions behind 24 and those of translation caches
/// behind eight.
pub open spec fn all_scope_starts(s: Seq<u8>, starts: Seq<int>, scopes: Seq<Seq<int>>) -> bool {
    &&& scopes.len() == starts.len() - 1
    &&& forall|i: int|
        0 <= i < scopes.len() ==> {
            let at = starts[i];
            let kind = bytes::le16(s, at);
            (kind == 0 || kind == 1 || kind == 5) ==> scope_starts(
                s,
                at + (if kind == 0 {
                    16int
                } else if kind == 1 {
                    24
                } else {
                    8
                }),
                at + bytes::le16(s, at + 2),
                #[trigger] scopes[i],
            )
        }
}

/// The places of a table that is read to its end.
pub open spec fn laid_out(s: Seq<u8>, starts: Seq<int>, scopes: Seq<Seq<int>>) -> bool {
    &&& s.len() <= usize::MAX
    &&& structure_starts(s, starts)
    &&& all_scope_starts(s, starts, scopes)
    &&& forall|i: int| 0 <= i < starts.len() - 1 ==> structure_sound(s, #[trigger] starts[i])
}

/// Reading a table that is read to its end takes one structure after the other.
#[verifier::rlimit(40)]
proof fn lemma_step(s: Seq<u8>, starts: Seq<int>, scopes: Seq<Seq<int>>, i: int)
    requires
        laid_out(s, starts, scopes),
        0 <= i < starts.len(),
    ensures
        ({
            let walk = super::dmar::structures_from(s, starts[i]);
            &&& walk.error is None
            &&& walk.items.len() == starts.len() - 1 - i
            &&& i < starts.len() - 1 ==> {
                &&& structure_reads(s, starts[i], walk.items[0])
                &&& structure_sound(s, starts[i])
                &&& walk.rest() == super::dmar::structures_from(s, starts[i + 1])
                &&& 0 <= starts[i]
                &&& starts[i] + bytes::le16(s, starts[i] + 2) <= s.len()
                &&& {
                    let kind = bytes::le16(s, starts[i]);
                    (kind == 0 || kind == 1 || kind == 5) ==> scope_starts(
                        s,
                        starts[i] + (if kind == 0 {
                            16int
                        } else if kind == 1 {
                            24
                        } else {
                            8
                        }),
                        starts[i] + bytes::le16(s, starts[i] + 2),
                        scopes[i],
                    )
                }
            }
        }),
{
    lemma_structures_from(s, starts, i);
    let walk = super::dmar::structures_from(s, starts[i]);
    if walk.error is Some {
        assert(structure_sound(s, starts[i + walk.items.len()]));
    }
    if i < starts.len() - 1 {
        assert(structure_follows(s, starts, i));
        lemma_starts_in_table(s, starts, i);
        lemma_starts_in_table(s, starts, i + 1);
        lemma_structure_content(s, starts[i]);
        assert(structure_sound(s, starts[i]));
        let first = super::dmar::structure_at(s, starts[i]).0->Ok_0;
        let rest = super::dmar::structures_from(s, starts[i + 1]);
        assert(walk == Walk::cons(first, rest));
        Walk::lemma_cons(first, rest);
        let here = scopes[i];
    }
}

#[verifier::rlimit(40)]
proof fn lemma_match_from(
    s: Seq<u8>,
    starts: Seq<int>,
    scopes: Seq<Seq<int>>,
    registers: MmioAddrRange,
    requester: PciDevice,
    i: int,
    so_far: Option<DmarRequesterMatch>,
)
    requires
        laid_out(s, starts, scopes),
        0 <= i < starts.len(),
    ensures
        ({
            let r = super::dmar::match_from(
                s,
                registers,
                requester,
                super::dmar::structures_from(s, starts[i]),
                so_far,
            );
            &&& r is Ok
            &&& forall|k: int|
                i <= k < starts.len() - 1 && unit_at(s, #[trigger] starts[k], registers) && (
                forall|j: int|
                    k < j < starts.len() - 1 ==> !unit_at(s, #[trigger] starts[j], registers))
                    ==> (r matches Ok(Some(answer)) && unit_answers(
                    s,
                    starts[k],
                    scopes[k],
                    requester,
                    answer,
                ))
            &&& (forall|k: int|
                i <= k < starts.len() - 1 ==> !unit_at(s, #[trigger] starts[k], registers)) ==> r
                == Ok::<_, DmarError>(so_far)
        }),
    decreases starts.len() - i,
{
    lemma_step(s, starts, scopes, i);
    let walk = super::dmar::structures_from(s, starts[i]);
    if i < starts.len() - 1 {
        let after = match walk.items[0] {
            Structure::Drhd(unit) => if unit.registers.same_bounds(registers) {
                lemma_unit_match(s, starts[i], unit, scopes[i], requester);
                Some(super::dmar::unit_match(s, unit, requester)->Ok_0)
            } else {
                so_far
            },
            _ => so_far,
        };
        assert(unit_at(s, starts[i], registers) ==> walk.items[0] is Drhd
            && walk.items[0]->Drhd_0.registers.same_bounds(registers));
        lemma_match_from(s, starts, scopes, registers, requester, i + 1, after);
    }
}

/// What the unit with the given registers is to a requester follows from the
/// bytes of its structure: from its segment, from bit 0 of its flags, and else
/// from its device scopes. Of several units with the same registers the last one
/// answers, and without one there is no answer.
pub proof fn law_unit_match_follows_its_bytes(
    s: Seq<u8>,
    starts: Seq<int>,
    scopes: Seq<Seq<int>>,
    registers: MmioAddrRange,
    requester: PciDevice,
    k: int,
)
    requires
        laid_out(s, starts, scopes),
        0 <= k < starts.len() - 1,
        forall|j: int|
            k < j < starts.len() - 1 ==> !unit_at(s, #[trigger] starts[j], registers),
    ensures
        ({
            let r = super::dmar::match_from(
                s,
                registers,
                requester,
                super::dmar::structures_from(s, 48),
                None,
            );
            &&& unit_at(s, starts[k], registers) ==> (r matches Ok(Some(answer)) && unit_answers(
                s,
                starts[k],
                scopes[k],
                requester,
                answer,
            ))
            &&& (forall|j: int|
                0 <= j < starts.len() - 1 ==> !unit_at(s, #[trigger] starts[j], registers)) ==> r
                == Ok::<Option<DmarRequesterMatch>, DmarError>(None)
        }),
{
    lemma_match_from(s, starts, scopes, registers, requester, 0, None);
}

/// The translation cache structure at `at` asks for address translation
/// services of the requester: it is of its segment, bit 0 of its flags is set,
/// and one of its scopes stands for the requester.
pub open spec fn asks_for_ats(
    s: Seq<u8>,
    at: int,
    scopes: Seq<int>,
    requester: PciDevice,
) -> bool {
    &&& bytes::le16(s, at) == 5
    &&& bytes::le16(s, at + 6) == requester.0 / 0x1_0000
    &&& s[at + 4] % 2 == 1
    &&& scopes_name(s, scopes, (requester.0 % 0x1_0000) as int)
}

proof fn lemma_ats_required_from(
    s: Seq<u8>,
    starts: Seq<int>,
    scopes: Seq<Seq<int>>,
    requester: PciDevice,
    i: int,
    so_far: bool,
)
    requires
        laid_out(s, starts, scopes),
        0 <= i < starts.len(),
    ensures
        super::dmar::ats_required_from(
            s,
            requester,
            super::dmar::structures_from(s, starts[i]),
            so_far,
        ) matches Ok(required) && required == (so_far || exists|k: int|
            i <= k < starts.len() - 1 && asks_for_ats(
                s,
                #[trigger] starts[k],
                scopes[k],
                requester,
            )),
    decreases starts.len() - i,
{
    lemma_step(s, starts, scopes, i);
    if i < starts.len() - 1 {
        let walk = super::dmar::structures_from(s, starts[i]);
        let here = asks_for_ats(s, starts[i], scopes[i], requester);
        match walk.items[0] {
            Structure::Satc(unit) => {
                lemma_scopes_name(
                    s,
                    starts[i],
                    bytes::le16(s, starts[i] + 2) as int,
                    8,
                    scopes[i],
                    requester.spec_bdf(),
                );
                if bytes::le16(s, starts[i] + 2) == 8 && scopes[i].len() > 1 {
                    assert(scope_follows(s, scopes[i], 0));
                    lemma_scope_bounds(s, starts[i] + 8, starts[i] + 8, scopes[i], 0);
                }
                assert(super::dmar::satc_requires(s, unit, requester) == Ok::<bool, DmarError>(here));
            },
            _ => {
                assert(!here);
            },
        }
        lemma_ats_required_from(s, starts, scopes, requester, i + 1, so_far || here);
    }
}

/// Address translation services are asked for a requester exactly where one of
/// the table's translation cache structures asks for them.
pub proof fn law_ats_is_required_where_a_structure_asks(
    s: Seq<u8>,
    starts: Seq<int>,
    scopes: Seq<Seq<int>>,
    requester: PciDevice,
)
    requires
        laid_out(s, starts, scopes),
    ensures
        super::dmar::ats_required_from(s, requester, super::dmar::structures_from(s, 48), false)
            matches Ok(required) && required == exists|k: int|
            0 <= k < starts.len() - 1 && asks_for_ats(
                s,
                #[trigger] starts[k],
                scopes[k],
                requester,
            ),
{
    lemma_ats_required_from(s, starts, scopes, requester, 0, false);
}

/// The reserved memory region of the segment and the memory starts at `at`: the
/// limit in bytes `[16..24]` is the last byte of the memory.
pub open spec fn region_at(s: Seq<u8>, at: int, segment: u16, memory: PhysAddrRange) -> bool {
    &&& bytes::le16(s, at) == 1
    &&& bytes::le16(s, at + 6) == segment
    &&& memory.start.0 == bytes::le64(s, at + 8)
    &&& memory.end.0 == bytes::le64(s, at + 16) + 1
}

/// The places of the scopes that are searched for a unit's requesters: none
/// where the structure is not the unit or bit 0 of its flags is set.
pub open spec fn unit_scopes(
    s: Seq<u8>,
    at: int,
    scopes: Seq<int>,
    registers: MmioAddrRange,
) -> Seq<int> {
    if unit_at(s, at, registers) && s[at + 4] % 2 == 0 {
        scopes.drop_last()
    } else {
        Seq::empty()
    }
}

/// The places of the scopes that are searched for a region's requesters.
pub open spec fn region_scopes(
    s: Seq<u8>,
    at: int,
    scopes: Seq<int>,
    segment: u16,
    memory: PhysAddrRange,
) -> Seq<int> {
    if region_at(s, at, segment, memory) {
        scopes.drop_last()
    } else {
        Seq::empty()
    }
}

/// What a list of requesters, in runs, is to the scopes at the given places:
/// the runs are in order and apart and hold exactly the requesters that a scope
/// stands for, and there is a list exactly where every scope is resolved and
/// there is a scope at all.
pub open spec fn lists_requesters(
    s: Seq<u8>,
    places: Seq<int>,
    found: bool,
    answer: Option<Seq<BdfRange>>,
) -> bool {
    &&& answer is Some <==> found && places.len() > 0 && forall|i: int|
        0 <= i < places.len() ==> scope_resolved(s, #[trigger] places[i])
    &&& answer matches Some(runs) ==> {
        &&& crate::firm::pcie::canonical(runs)
        &&& forall|bdf: Bdf| #[trigger]
            crate::firm::pcie::covered(runs, bdf.0 as int) == exists|i: int|
                0 <= i < places.len() && scope_stands_for(s, #[trigger] places[i], bdf.0 as int)
    }
}

/// A scan that has taken in the scopes at the given places.
spec fn has_scanned(s: Seq<u8>, places: Seq<int>, scan: RequesterScan) -> bool {
    &&& crate::firm::pcie::canonical(scan.runs)
    &&& scan.runs.len() <= 16
    &&& scan.runs.len() <= places.len()
    &&& scan.unresolved <==> exists|i: int|
        0 <= i < places.len() && !scope_resolved(s, #[trigger] places[i])
    &&& forall|bdf: Bdf| #[trigger]
        crate::firm::pcie::covered(scan.runs, bdf.0 as int) == exists|i: int|
            0 <= i < places.len() && scope_stands_for(s, #[trigger] places[i], bdf.0 as int)
}

proof fn lemma_scanned_answer(s: Seq<u8>, places: Seq<int>, scan: RequesterScan)
    requires
        has_scanned(s, places, scan),
    ensures
        lists_requesters(s, places, scan.found, scan.answer()),
{
    if places.len() == 0 {
        assert(scan.runs.len() == 0);
    } else if !scan.unresolved {
        let at = places[0];
        assert(scope_resolved(s, at));
        let id: int = s[at + 5] * 256 + s[at + 6] * 8 + s[at + 7];
        let bdf = Bdf(id as u16);
        assert(scope_stands_for(s, places[0], bdf.0 as int));
        assert(crate::firm::pcie::covered(scan.runs, bdf.0 as int));
        assert(scan.runs.len() > 0);
    }
}

/// Taking in one more scope.
#[verifier::rlimit(40)]
proof fn lemma_scan_one(s: Seq<u8>, places: Seq<int>, scan: RequesterScan, at: int, scope: Scope)
    requires
        has_scanned(s, places, scan),
        scope_reads(s, at, scope),
    ensures
        match scan.scope(scope) {
            Ok(after) => has_scanned(s, places.push(at), after) && after.found == scan.found,
            Err(error) => error == DmarError::BdfRanges(
                crate::firm::pcie::BdfRangeSetError::Full,
            ) && places.len() >= 16,
        },
{
    let longer = places.push(at);
    assert(longer[places.len() as int] == at);
    assert(forall|i: int| 0 <= i < places.len() ==> #[trigger] longer[i] == places[i]);
    if scope.requester is Some {
        let range = scope.requester->0;
        crate::firm::pcie::law_adding_a_range_adds_its_identities(scan.runs, range, 16);
        crate::firm::pcie::law_a_range_finds_room_below_capacity(scan.runs, range, 16);
    }
    if scan.scope(scope) is Ok {
        let after = scan.scope(scope)->Ok_0;
        assert forall|bdf: Bdf| #[trigger]
            crate::firm::pcie::covered(after.runs, bdf.0 as int) == exists|i: int|
                0 <= i < longer.len() && scope_stands_for(
                    s,
                    #[trigger] longer[i],
                    bdf.0 as int,
                ) by {
            let id = bdf.0 as int;
            let before = crate::firm::pcie::covered(scan.runs, id);
            if before {
                let i = choose|i: int|
                    0 <= i < places.len() && scope_stands_for(s, #[trigger] places[i], id);
                assert(scope_stands_for(s, longer[i], id));
            }
            if exists|i: int| 0 <= i < longer.len() && scope_stands_for(s, #[trigger] longer[i], id) {
                let i = choose|i: int|
                    0 <= i < longer.len() && scope_stands_for(s, #[trigger] longer[i], id);
                if i < places.len() {
                    assert(scope_stands_for(s, places[i], id));
                    assert(before);
                }
            }
        }
        if scan.unresolved {
            let i = choose|i: int| 0 <= i < places.len() && !scope_resolved(s, #[trigger] places[i]);
            assert(!scope_resolved(s, longer[i]));
        }
        if exists|i: int| 0 <= i < longer.len() && !scope_resolved(s, #[trigger] longer[i]) {
            let i = choose|i: int| 0 <= i < longer.len() && !scope_resolved(s, #[trigger] longer[i]);
            if i < places.len() {
                assert(!scope_resolved(s, places[i]));
            }
        }
    }
}

/// Taking in the scopes of one structure from the `i`th on.
proof fn lemma_scan_scopes(
    s: Seq<u8>,
    places: Seq<int>,
    scan: RequesterScan,
    structure: int,
    length: int,
    offset: int,
    starts: Seq<int>,
    i: int,
)
    requires
        has_scanned(s, places, scan),
        scope_starts(s, structure + offset, structure + length, starts),
        0 <= structure,
        0 <= offset,
        structure + length <= s.len(),
        0 <= i < starts.len(),
    ensures
        match scan.scopes(
            super::dmar::device_scopes(s, structure, length, starts[i] - structure),
        ) {
            Ok(after) => has_scanned(
                s,
                places + starts.subrange(i, starts.len() - 1),
                after,
            ) && after.found == scan.found,
            Err(error) => error == DmarError::BdfRanges(
                crate::firm::pcie::BdfRangeSetError::Full,
            ) && places.len() + starts.len() - 1 - i > 16,
        },
    decreases starts.len() - i,
{
    lemma_scopes_from(s, structure, length, offset, starts, i);
    let walk = super::dmar::device_scopes(s, structure, length, starts[i] - structure);
    if i < starts.len() - 1 {
        assert(scope_follows(s, starts, i));
        lemma_scope_bounds(s, structure + offset, structure + length, starts, i);
        let first = super::dmar::scope_at(s, starts[i], s[starts[i] + 1] as int);
        let rest = super::dmar::device_scopes(s, structure, length, starts[i + 1] - structure);
        assert(walk == Walk::cons(first, rest));
        Walk::lemma_cons(first, rest);
        assert(scope_reads(s, starts[i + 0], walk.items[0]));
        lemma_scan_one(s, places, scan, starts[i], first);
        if scan.scope(first) is Ok {
            let after = scan.scope(first)->Ok_0;
            lemma_scan_scopes(
                s,
                places.push(starts[i]),
                after,
                structure,
                length,
                offset,
                starts,
                i + 1,
            );
            assert(places.push(starts[i]) + starts.subrange(i + 1, starts.len() - 1) =~= places
                + starts.subrange(i, starts.len() - 1));
        }
    } else {
        assert(places + starts.subrange(i, starts.len() - 1) =~= places);
    }
}

/// The places of the scopes of a unit's structures from the `i`th on, in order.
pub open spec fn all_unit_scopes(
    s: Seq<u8>,
    starts: Seq<int>,
    scopes: Seq<Seq<int>>,
    registers: MmioAddrRange,
    i: int,
) -> Seq<int>
    decreases starts.len() - i,
{
    if i < starts.len() - 1 {
        unit_scopes(s, starts[i], scopes[i], registers) + all_unit_scopes(
            s,
            starts,
            scopes,
            registers,
            i + 1,
        )
    } else {
        Seq::empty()
    }
}

/// The places of the scopes of a region's structures from the `i`th on, in
/// order.
pub open spec fn all_region_scopes(
    s: Seq<u8>,
    starts: Seq<int>,
    scopes: Seq<Seq<int>>,
    segment: u16,
    memory: PhysAddrRange,
    i: int,
) -> Seq<int>
    decreases starts.len() - i,
{
    if i < starts.len() - 1 {
        region_scopes(s, starts[i], scopes[i], segment, memory) + all_region_scopes(
            s,
            starts,
            scopes,
            segment,
            memory,
            i + 1,
        )
    } else {
        Seq::empty()
    }
}

#[verifier::rlimit(40)]
proof fn lemma_drhds(
    s: Seq<u8>,
    starts: Seq<int>,
    scopes: Seq<Seq<int>>,
    registers: MmioAddrRange,
    i: int,
    places: Seq<int>,
    scan: RequesterScan,
)
    requires
        laid_out(s, starts, scopes),
        0 <= i < starts.len(),
        has_scanned(s, places, scan),
    ensures
        match scan.drhds(s, registers, super::dmar::structures_from(s, starts[i])) {
            Ok(after) => {
                &&& has_scanned(
                    s,
                    places + all_unit_scopes(s, starts, scopes, registers, i),
                    after,
                )
                &&& after.found == (scan.found || exists|k: int|
                    i <= k < starts.len() - 1 && unit_at(s, #[trigger] starts[k], registers))
            },
            Err(error) => {
                &&& error == DmarError::BdfRanges(crate::firm::pcie::BdfRangeSetError::Full)
                &&& places.len() + all_unit_scopes(s, starts, scopes, registers, i).len() > 16
            },
        },
    decreases starts.len() - i,
{
    lemma_step(s, starts, scopes, i);
    let walk = super::dmar::structures_from(s, starts[i]);
    if i < starts.len() - 1 {
        let at = starts[i];
        let here = unit_scopes(s, at, scopes[i], registers);
        let next = all_unit_scopes(s, starts, scopes, registers, i + 1);
        let seen = RequesterScan { found: true, ..scan };
        assert(has_scanned(s, places, seen));
        match walk.items[0] {
            Structure::Drhd(unit) => {
                assert(unit.registers.same_bounds(registers) == unit_at(s, at, registers));
                if unit_at(s, at, registers) && !unit.include_all {
                    lemma_scan_scopes(
                        s,
                        places,
                        seen,
                        at,
                        bytes::le16(s, at + 2) as int,
                        16,
                        scopes[i],
                        0,
                    );
                    assert(scopes[i].subrange(0, scopes[i].len() - 1) =~= here);
                } else {
                    assert(places + here =~= places);
                }
            },
            _ => {
                assert(places + here =~= places);
            },
        }
        if scan.drhd(s, registers, walk.items[0]) is Ok {
            let after = scan.drhd(s, registers, walk.items[0])->Ok_0;
            lemma_drhds(s, starts, scopes, registers, i + 1, places + here, after);
            assert((places + here) + next =~= places + (here + next));
        }
    } else {
        assert(places + all_unit_scopes(s, starts, scopes, registers, i) =~= places);
    }
}

#[verifier::rlimit(40)]
proof fn lemma_rmrrs(
    s: Seq<u8>,
    starts: Seq<int>,
    scopes: Seq<Seq<int>>,
    segment: u16,
    memory: PhysAddrRange,
    i: int,
    places: Seq<int>,
    scan: RequesterScan,
)
    requires
        laid_out(s, starts, scopes),
        0 <= i < starts.len(),
        has_scanned(s, places, scan),
    ensures
        match scan.rmrrs(s, segment, memory, super::dmar::structures_from(s, starts[i])) {
            Ok(after) => {
                &&& has_scanned(
                    s,
                    places + all_region_scopes(s, starts, scopes, segment, memory, i),
                    after,
                )
                &&& after.found == (scan.found || exists|k: int|
                    i <= k < starts.len() - 1 && region_at(s, #[trigger] starts[k], segment, memory))
            },
            Err(error) => {
                &&& error == DmarError::BdfRanges(crate::firm::pcie::BdfRangeSetError::Full)
                &&& places.len() + all_region_scopes(
                    s,
                    starts,
                    scopes,
                    segment,
                    memory,
                    i,
                ).len() > 16
            },
        },
    decreases starts.len() - i,
{
    lemma_step(s, starts, scopes, i);
    let walk = super::dmar::structures_from(s, starts[i]);
    if i < starts.len() - 1 {
        let at = starts[i];
        let here = region_scopes(s, at, scopes[i], segment, memory);
        let next = all_region_scopes(s, starts, scopes, segment, memory, i + 1);
        let seen = RequesterScan { found: true, ..scan };
        assert(has_scanned(s, places, seen));
        match walk.items[0] {
            Structure::Rmrr(region) => {
                assert((region.segment == segment && region.memory.same_bounds(memory))
                    == region_at(s, at, segment, memory));
                if region_at(s, at, segment, memory) {
                    lemma_scan_scopes(
                        s,
                        places,
                        seen,
                        at,
                        bytes::le16(s, at + 2) as int,
                        24,
                        scopes[i],
                        0,
                    );
                    assert(scopes[i].subrange(0, scopes[i].len() - 1) =~= here);
                } else {
                    assert(places + here =~= places);
                }
            },
            _ => {
                assert(places + here =~= places);
            },
        }
        if scan.rmrr(s, segment, memory, walk.items[0]) is Ok {
            let after = scan.rmrr(s, segment, memory, walk.items[0])->Ok_0;
            lemma_rmrrs(s, starts, scopes, segment, memory, i + 1, places + here, after);
            assert((places + here) + next =~= places + (here + next));
        }
    } else {
        assert(places + all_region_scopes(s, starts, scopes, segment, memory, i) =~= places);
    }
}

/// The requesters of a unit are those that the scopes of its structures stand
/// for. There is a list of them where the unit is in the table, has scopes, and
/// all of them are resolved; and sixteen scopes always find room.
pub proof fn law_unit_ranges_follow_its_bytes(
    s: Seq<u8>,
    starts: Seq<int>,
    scopes: Seq<Seq<int>>,
    registers: MmioAddrRange,
)
    requires
        laid_out(s, starts, scopes),
    ensures
        ({
            let places = all_unit_scopes(s, starts, scopes, registers, 0);
            let found = exists|k: int|
                0 <= k < starts.len() - 1 && unit_at(s, #[trigger] starts[k], registers);
            match RequesterScan::start().drhds(
                s,
                registers,
                super::dmar::structures_from(s, 48),
            ) {
                Ok(scan) => lists_requesters(s, places, found, scan.answer()),
                Err(error) => {
                    &&& error == DmarError::BdfRanges(crate::firm::pcie::BdfRangeSetError::Full)
                    &&& places.len() > 16
                },
            }
        }),
{
    let none = Seq::<int>::empty();
    let start = RequesterScan::start();
    assert(has_scanned(s, none, start));
    lemma_drhds(s, starts, scopes, registers, 0, none, start);
    let places = all_unit_scopes(s, starts, scopes, registers, 0);
    assert(none + places =~= places);
    let r = start.drhds(s, registers, super::dmar::structures_from(s, 48));
    if r is Ok {
        lemma_scanned_answer(s, places, r->Ok_0);
    }
}

/// The requesters of a reserved memory region are those that the scopes of its
/// structures stand for. There is a list of them where the region is in the
/// table, has scopes, and all of them are resolved; and sixteen scopes always
/// find room.
pub proof fn law_region_ranges_follow_its_bytes(
    s: Seq<u8>,
    starts: Seq<int>,
    scopes: Seq<Seq<int>>,
    segment: u16,
    memory: PhysAddrRange,
)
    requires
        laid_out(s, starts, scopes),
    ensures
        ({
            let places = all_region_scopes(s, starts, scopes, segment, memory, 0);
            let found = exists|k: int|
                0 <= k < starts.len() - 1 && region_at(s, #[trigger] starts[k], segment, memory);
            match RequesterScan::start().rmrrs(
                s,
                segment,
                memory,
                super::dmar::structures_from(s, 48),
            ) {
                Ok(scan) => lists_requesters(s, places, found, scan.answer()),
                Err(error) => {
                    &&& error == DmarError::BdfRanges(crate::firm::pcie::BdfRangeSetError::Full)
                    &&& places.len() > 16
                },
            }
        }),
{
    let none = Seq::<int>::empty();
    let start = RequesterScan::start();
    assert(has_scanned(s, none, start));
    lemma_rmrrs(s, starts, scopes, segment, memory, 0, none, start);
    let places = all_region_scopes(s, starts, scopes, segment, memory, 0);
    assert(none + places =~= places);
    let r = start.rmrrs(s, segment, memory, super::dmar::structures_from(s, 48));
    if r is Ok {
        lemma_scanned_answer(s, places, r->Ok_0);
    }
}

/// The proximity domain of a unit is in bytes `[16..20]` of the last affinity
/// structure with the unit's registers, the name of a name-space device in the
/// last structure of its number from byte 8 on; without such a structure there
/// is none. There are device properties where a structure of kind 6 is.
#[verifier::rlimit(40)]
pub proof fn law_last_structure_answers(
    s: Seq<u8>,
    starts: Seq<int>,
    scopes: Seq<Seq<int>>,
    registers: MmioAddrRange,
    number: u8,
    k: int,
)
    requires
        laid_out(s, starts, scopes),
        0 <= k < starts.len(),
    ensures
        ({
            let items = super::dmar::structures_from(s, 48).items;
            let domain = crate::walk::last_some(items, super::dmar::rhsa_domain(registers));
            let name = crate::walk::last_some(items, super::dmar::andd_name(number));
            &&& (forall|j: int|
                k <= j < starts.len() - 1 ==> !(bytes::le16(s, #[trigger] starts[j]) == 3
                    && has_registers(s, starts[j], registers))) ==> {
                &&& k == 0 ==> domain is None
                &&& k > 0 && bytes::le16(s, starts[k - 1]) == 3 && has_registers(
                    s,
                    starts[k - 1],
                    registers,
                ) ==> domain == Some(bytes::le32(s, starts[k - 1] + 16))
            }
            &&& (forall|j: int|
                k <= j < starts.len() - 1 ==> !(bytes::le16(s, #[trigger] starts[j]) == 4
                    && s[starts[j] + 7] == number)) ==> {
                &&& k == 0 ==> name is None
                &&& k > 0 && bytes::le16(s, starts[k - 1]) == 4 && s[starts[k - 1] + 7] == number
                    ==> name == Some(s.subrange(starts[k - 1] + 8, starts[k]))
            }
            &&& crate::walk::any(items, super::dmar::is_sidp()) <==> exists|j: int|
                0 <= j < starts.len() - 1 && bytes::le16(s, #[trigger] starts[j]) == 6
        }),
{
    law_structures_are_read_where_they_start(s, starts);
    let items = super::dmar::structures_from(s, 48).items;
    let domain = super::dmar::rhsa_domain(registers);
    let name = super::dmar::andd_name(number);
    let sidp = super::dmar::is_sidp();
    assert forall|j: int| 0 <= j < items.len() implies {
        &&& domain(#[trigger] items[j]) == (if bytes::le16(s, starts[j]) == 3 && has_registers(
            s,
            starts[j],
            registers,
        ) {
            Some(bytes::le32(s, starts[j] + 16))
        } else {
            None
        })
        &&& name(items[j]) == (if bytes::le16(s, starts[j]) == 4 && s[starts[j] + 7] == number {
            Some(s.subrange(starts[j] + 8, starts[j] + bytes::le16(s, starts[j] + 2)))
        } else {
            None
        })
        &&& sidp(items[j]) == (bytes::le16(s, starts[j]) == 6)
    } by {
        assert(structure_reads(s, starts[j], items[j]));
    }
    if k > 0 {
        assert(structure_follows(s, starts, k - 1));
        let before = items[k - 1];
    }
    if forall|j: int|
        k <= j < starts.len() - 1 ==> !(bytes::le16(s, #[trigger] starts[j]) == 3 && has_registers(
            s,
            starts[j],
            registers,
        )) {
        crate::walk::law_last_find_stands_furthest_behind(items, domain, k);
    }
    if forall|j: int|
        k <= j < starts.len() - 1 ==> !(bytes::le16(s, #[trigger] starts[j]) == 4 && s[starts[j]
            + 7] == number) {
        crate::walk::law_last_find_stands_furthest_behind(items, name, k);
    }
    if crate::walk::any(items, sidp) {
        let j = choose|j: int| 0 <= j < items.len() && sidp(#[trigger] items[j]);
        assert(bytes::le16(s, starts[j]) == 6);
    }
    if exists|j: int| 0 <= j < starts.len() - 1 && bytes::le16(s, #[trigger] starts[j]) == 6 {
        let j = choose|j: int|
            0 <= j < starts.len() - 1 && bytes::le16(s, #[trigger] starts[j]) == 6;
        assert(sidp(items[j]));
    }
}

/// The structure at `at` breaks the table off: its header does not lie in the
/// table, its length is below that of a header, or it leaves the table.
pub open spec fn structure_broken(s: Seq<u8>, at: int) -> bool {
    &&& at < s.len()
    &&& at + 4 > s.len() || bytes::le16(s, at + 2) < 4 || at + bytes::le16(s, at + 2) > s.len()
}

/// A table in which a structure is broken off is refused, wherever the structure
/// stands.
pub proof fn law_broken_structure_is_refused(s: Seq<u8>, starts: Seq<int>, i: int)
    requires
        starts.len() > 0,
        forall|j: int| 0 <= j < starts.len() - 1 ==> #[trigger] structure_follows(s, starts, j),
        structure_broken(s, starts.last()),
        0 <= i < starts.len(),
    ensures
        super::dmar::structures_from(s, starts[i]).error is Some,
    decreases starts.len() - i,
{
    if i < starts.len() - 1 {
        assert(structure_follows(s, starts, i));
        law_broken_structure_is_refused(s, starts, i + 1);
    }
}

/// The scope at `at` breaks the list up to `end` off: its header does not lie in
/// the structure, its length is below that of a header or odd, or it leaves the
/// structure.
pub open spec fn scope_broken(s: Seq<u8>, at: int, end: int) -> bool {
    &&& at < end
    &&& at + 6 > end || s[at + 1] < 6 || s[at + 1] % 2 == 1 || at + s[at + 1] > end
}

/// A list of scopes in which one is broken off is refused, wherever it stands.
pub proof fn law_broken_scope_is_refused(
    s: Seq<u8>,
    structure: int,
    length: int,
    starts: Seq<int>,
    i: int,
)
    requires
        starts.len() > 0,
        forall|j: int| 0 <= j < starts.len() - 1 ==> #[trigger] scope_follows(s, starts, j),
        scope_broken(s, starts.last(), structure + length),
        0 <= i < starts.len(),
    ensures
        super::dmar::device_scopes(s, structure, length, starts[i] - structure).error is Some,
    decreases starts.len() - i,
{
    if i < starts.len() - 1 {
        assert(scope_follows(s, starts, i));
        law_broken_scope_is_refused(s, structure, length, starts, i + 1);
    }
}

/// What a table cannot say is not made up: where the list of structures is
/// broken off no question about a requester is answered, and where the scopes of
/// a unit of the requester's segment are, the unit gives no answer unless bit 0
/// of its flags makes them needless.
pub proof fn law_broken_table_gives_no_answer(
    s: Seq<u8>,
    registers: MmioAddrRange,
    segment: u16,
    memory: PhysAddrRange,
    requester: PciDevice,
    unit: DmarDrhd,
    so_far: Option<DmarRequesterMatch>,
    required: bool,
    scan: RequesterScan,
    walk: Walk<Structure, DmarError>,
)
    ensures
        walk.error is Some ==> {
            &&& super::dmar::match_from(s, registers, requester, walk, so_far) is Err
            &&& super::dmar::ats_required_from(s, requester, walk, required) is Err
            &&& scan.drhds(s, registers, walk) is Err
            &&& scan.rmrrs(s, segment, memory, walk) is Err
        },
        super::dmar::device_scopes(
            s,
            unit.structure_offset as int,
            unit.length as int,
            16,
        ).error matches Some(error) ==> unit.segment == requester.0 / 0x1_0000
            && !unit.include_all ==> super::dmar::unit_match(s, unit, requester) == Err::<
            DmarRequesterMatch,
            DmarError,
        >(error),
    decreases walk.items.len(),
{
    if walk.items.len() > 0 {
        let first = walk.items[0];
        let answer = match first {
            Structure::Drhd(other) => if other.registers.same_bounds(registers) {
                match super::dmar::unit_match(s, other, requester) {
                    Ok(answer) => Some(answer),
                    Err(_) => so_far,
                }
            } else {
                so_far
            },
            _ => so_far,
        };
        let asked = match first {
            Structure::Satc(other) => match super::dmar::satc_requires(s, other, requester) {
                Ok(asks) => required || asks,
                Err(_) => required,
            },
            _ => required,
        };
        let units = match scan.drhd(s, registers, first) {
            Ok(after) => after,
            Err(_) => scan,
        };
        let regions = match scan.rmrr(s, segment, memory, first) {
            Ok(after) => after,
            Err(_) => scan,
        };
        law_broken_table_gives_no_answer(
            s,
            registers,
            segment,
            memory,
            requester,
            unit,
            answer,
            asked,
            units,
            walk.rest(),
        );
        law_broken_table_gives_no_answer(
            s,
            registers,
            segment,
            memory,
            requester,
            unit,
            answer,
            asked,
            regions,
            walk.rest(),
        );
    }
}

/// Neither are the requesters of scopes that are broken off.
pub proof fn law_broken_scopes_give_no_requesters(
    scan: RequesterScan,
    walk: Walk<Scope, DmarError>,
)
    requires
        walk.error is Some,
    ensures
        scan.scopes(walk) is Err,
    decreases walk.items.len(),
{
    if walk.items.len() > 0 {
        if scan.scope(walk.items[0]) is Ok {
            law_broken_scopes_give_no_requesters(scan.scope(walk.items[0])->Ok_0, walk.rest());
        }
    }
}

/// A callback for one kind of structure is called with every structure of that
/// kind, whatever it holds, and for no other; a structure that it is not called
/// for is no failure.
pub proof fn law_callbacks_get_all_of_their_kind<D, R, A, H, S, P>(
    structure: Structure,
    r: Result<(), DmarError>,
    width: u8,
    on_unit: D,
    on_region: R,
    on_ports: A,
    on_affinity: H,
    on_cache: S,
    on_properties: P,
) where
    D: Fn(u8, DmarDrhd) -> Result<(), DmarError>,
    R: Fn(DmarRmrr) -> Result<(), DmarError>,
    A: Fn(DmarAtsr) -> Result<(), DmarError>,
    H: Fn(DmarRhsa) -> Result<(), DmarError>,
    S: Fn(DmarSatc) -> Result<(), DmarError>,
    P: Fn(DmarSidp) -> Result<(), DmarError>,

    ensures
        super::dmar::drhd_outcome(on_unit, width)(structure, r) == (if structure is Drhd {
            call_ensures(on_unit, (width, structure->Drhd_0), r)
        } else {
            r is Ok
        }),
        super::dmar::rmrr_outcome(on_region)(structure, r) == (if structure is Rmrr {
            call_ensures(on_region, (structure->Rmrr_0,), r)
        } else {
            r is Ok
        }),
        super::dmar::atsr_outcome(on_ports)(structure, r) == (if structure is Atsr {
            call_ensures(on_ports, (structure->Atsr_0,), r)
        } else {
            r is Ok
        }),
        super::dmar::rhsa_outcome(on_affinity)(structure, r) == (if structure is Rhsa {
            call_ensures(on_affinity, (structure->Rhsa_0,), r)
        } else {
            r is Ok
        }),
        super::dmar::satc_outcome(on_cache)(structure, r) == (if structure is Satc {
            call_ensures(on_cache, (structure->Satc_0,), r)
        } else {
            r is Ok
        }),
        super::dmar::sidp_outcome(on_properties)(structure, r) == (if structure is Sidp {
            call_ensures(on_properties, (structure->Sidp_0,), r)
        } else {
            r is Ok
        }),
{
}

/// A callback for structures or scopes is called with the very one that was
/// read, and one for name-space devices with the number and the name in its
/// structure.
pub proof fn law_callbacks_get_what_was_read<'a, T, C, N>(
    structure: Structure,
    scope: Scope,
    r: Result<(), DmarError>,
    on_structure: T,
    on_scope: C,
    on_device: N,
) where
    T: Fn(DmarStructure<'a>) -> Result<(), DmarError>,
    C: Fn(DmarDeviceScope<'a>) -> Result<(), DmarError>,
    N: Fn(DmarAndd<'a>) -> Result<(), DmarError>,

    ensures
        super::dmar::structure_outcome(on_structure)(structure, r) <==> exists|
            read: DmarStructure<'a>,
        | #[trigger] call_ensures(on_structure, (read,), r) && read@ == structure,
        super::dmar::scope_outcome(on_scope)(scope, r) <==> exists|read: DmarDeviceScope<'a>|
            #[trigger] call_ensures(on_scope, (read,), r) && read@ == scope,
        !(structure is Andd) ==> super::dmar::andd_outcome(on_device)(structure, r) == (r is Ok),
        structure matches Structure::Andd { acpi_device_number, object_name } ==> (
        super::dmar::andd_outcome(on_device)(structure, r) <==> exists|device: DmarAndd<'a>|
            {
                &&& #[trigger] call_ensures(on_device, (device,), r)
                &&& device.acpi_device_number == acpi_device_number
                &&& device.object_name@ == object_name
            }),
{
}

} // verus!
