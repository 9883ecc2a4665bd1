//! What an I/O virtualization table says of units, memory and requesters, stated
//! over the bytes of the table and the places where its blocks and device
//! entries start.

use vstd::prelude::*;

use super::ivrs::{
    DeviceEntry, Ivhd, IvhdDeviceEntry, Ivmd, IvrsBlock, IvrsError, PendingIvhdRange,
    PendingIvhdRangeKind, RequesterScan,
};
use crate::addr::{Address, MmioAddrRange};
use crate::bytes;
use crate::firm::pcie::{BdfRange, BdfRangeSetError};
use crate::walk::Walk;

verus! {

/// The number of bytes of a device entry: 22 and those of its name for a named
/// device, eight for the extended kinds, else four.
pub open spec fn entry_length(s: Seq<u8>, at: int) -> int {
    if s[at] == 0xf0 {
        22 + s[at + 21]
    } else if 0x42 <= s[at] <= 0x43 || 0x46 <= s[at] <= 0x48 {
        8
    } else {
        4
    }
}

/// The device entry that starts at `starts[i]` is followed by the next one.
pub open spec fn entry_follows(s: Seq<u8>, starts: Seq<int>, i: int) -> bool {
    s[starts[i]] <= 0xf0 && starts[i + 1] == starts[i] + entry_length(s, starts[i])
}

/// These are the places where the device entries between `first` and `end`
/// start, and where their list stops: at `end`, or at an entry of a type that
/// is reserved.
pub open spec fn entry_starts(s: Seq<u8>, first: int, end: int, starts: Seq<int>) -> bool {
    &&& starts.len() > 0
    &&& starts[0] == first
    &&& starts.last() <= end
    &&& starts.last() < end ==> s[starts.last()] > 0xf0
    &&& forall|i: int| 0 <= i < starts.len() - 1 ==> #[trigger] entry_follows(s, starts, i)
}

/// The entry at `at` is the first of a range.
pub open spec fn starts_range(s: Seq<u8>, at: int) -> bool {
    s[at] == 0x03 || s[at] == 0x43 || s[at] == 0x47
}

/// Entry `j` starts a range, and no entry between it and entry `i` starts or
/// ends one.
pub open spec fn range_open(s: Seq<u8>, starts: Seq<int>, j: int, i: int) -> bool {
    &&& 0 <= j < i
    &&& starts_range(s, starts[j])
    &&& forall|m: int|
        j < m < i ==> !starts_range(s, #[trigger] starts[m]) && s[starts[m]] != 0x04
}

/// Entry `i` ends the range that entry `j` starts.
pub open spec fn ends_range(s: Seq<u8>, starts: Seq<int>, j: int, i: int) -> bool {
    s[starts[i]] == 0x04 && range_open(s, starts, j, i)
}

/// Entry `i` ends a range in front of where the range starts.
pub open spec fn reversed(s: Seq<u8>, starts: Seq<int>, i: int) -> bool {
    exists|j: int| #[trigger] ends_range(s, starts, j, i) && bytes::le16(s, starts[i] + 2)
        < bytes::le16(s, starts[j] + 2)
}

/// Entry `i` puts an entry on the list: it is of a known kind, does not start a
/// range, and where it ends one there is one to end.
pub open spec fn listed(s: Seq<u8>, starts: Seq<int>, i: int) -> bool {
    let kind = s[starts[i]];
    ||| kind == 0x00 || kind == 0x01 || kind == 0x02 || kind == 0x42 || kind == 0x46 || kind == 0x48
        || kind == 0xf0
    ||| exists|j: int| #[trigger] ends_range(s, starts, j, i)
}

/// The number of listed entries in front of entry `i`.
pub open spec fn listed_before(s: Seq<u8>, starts: Seq<int>, i: int) -> nat
    decreases i,
{
    if i <= 0 {
        0
    } else {
        listed_before(s, starts, i - 1) + (if listed(s, starts, i - 1) {
            1nat
        } else {
            0nat
        })
    }
}

/// What was read for entry `i` is what its bytes say; for the end of a range,
/// what they say together with those of its start.
pub open spec fn entry_reads(s: Seq<u8>, starts: Seq<int>, i: int, entry: DeviceEntry) -> bool {
    let at = starts[i];
    match entry {
        DeviceEntry::Pad => s[at] == 0x00,
        DeviceEntry::All { data_setting } => s[at] == 0x01 && data_setting == s[at + 1],
        DeviceEntry::Select { device_id, data_setting } => {
            &&& s[at] == 0x02
            &&& device_id.0 == bytes::le16(s, at + 2)
            &&& data_setting == s[at + 1]
        },
        DeviceEntry::AliasSelect { device_id, source, data_setting } => {
            &&& s[at] == 0x42
            &&& device_id.0 == bytes::le16(s, at + 2)
            &&& source.0 == bytes::le16(s, at + 6)
            &&& data_setting == s[at + 1]
        },
        DeviceEntry::ExtendedSelect { device_id, data_setting, extended_data_setting } => {
            &&& s[at] == 0x46
            &&& device_id.0 == bytes::le16(s, at + 2)
            &&& data_setting == s[at + 1]
            &&& extended_data_setting == bytes::le32(s, at + 4)
        },
        DeviceEntry::Special { device_id, variety } => {
            &&& s[at] == 0x48
            &&& device_id.0 == bytes::le16(s, at + 6)
            &&& variety == s[at + 1]
        },
        DeviceEntry::AcpiNamed {
            device_id,
            data_setting,
            hardware_id,
            compatible_id,
            uid_format,
            uid,
        } => {
            &&& s[at] == 0xf0
            &&& device_id.0 == bytes::le16(s, at + 1)
            &&& data_setting == s[at + 3]
            &&& hardware_id == bytes::le64(s, at + 4)
            &&& compatible_id == bytes::le64(s, at + 12)
            &&& uid_format == s[at + 20]
            &&& uid == s.subrange(at + 22, starts[i + 1])
        },
        DeviceEntry::Range { start, end, data_setting } => exists|j: int|
            {
                &&& #[trigger] ends_range(s, starts, j, i)
                &&& s[starts[j]] == 0x03
                &&& start.0 == bytes::le16(s, starts[j] + 2)
                &&& end.0 == bytes::le16(s, at + 2)
                &&& data_setting == s[starts[j] + 1]
            },
        DeviceEntry::AliasRange { start, end, source, data_setting } => exists|j: int|
            {
                &&& #[trigger] ends_range(s, starts, j, i)
                &&& s[starts[j]] == 0x43
                &&& start.0 == bytes::le16(s, starts[j] + 2)
                &&& end.0 == bytes::le16(s, at + 2)
                &&& source.0 == bytes::le16(s, starts[j] + 6)
                &&& data_setting == s[starts[j] + 1]
            },
        DeviceEntry::ExtendedRange { start, end, data_setting, extended_data_setting } => exists|
            j: int,
        |
            {
                &&& #[trigger] ends_range(s, starts, j, i)
                &&& s[starts[j]] == 0x47
                &&& start.0 == bytes::le16(s, starts[j] + 2)
                &&& end.0 == bytes::le16(s, at + 2)
                &&& data_setting == s[starts[j] + 1]
                &&& extended_data_setting == bytes::le32(s, starts[j] + 4)
            },
    }
}

/// A range that is open in front of entry `i`, or none.
spec fn pending(s: Seq<u8>, starts: Seq<int>, i: int, open: Option<PendingIvhdRange>) -> bool {
    match open {
        None => forall|j: int| !#[trigger] range_open(s, starts, j, i),
        Some(first) => exists|j: int|
            {
                &&& #[trigger] range_open(s, starts, j, i)
                &&& first.start.0 == bytes::le16(s, starts[j] + 2)
                &&& first.data_setting == s[starts[j] + 1]
                &&& match first.kind {
                    PendingIvhdRangeKind::Plain => s[starts[j]] == 0x03,
                    PendingIvhdRangeKind::Alias { source } => s[starts[j]] == 0x43 && source.0
                        == bytes::le16(s, starts[j] + 6),
                    PendingIvhdRangeKind::Extended { extended_data_setting } => s[starts[j]]
                        == 0x47 && extended_data_setting == bytes::le32(s, starts[j] + 4),
                }
            },
    }
}

/// Two ranges cannot be open at one entry.
proof fn lemma_one_open(s: Seq<u8>, starts: Seq<int>, j: int, k: int, i: int)
    requires
        range_open(s, starts, j, i),
        range_open(s, starts, k, i),
    ensures
        j == k,
{
    if j < k {
        assert(!starts_range(s, starts[k]));
    } else if k < j {
        assert(!starts_range(s, starts[j]));
    }
}

/// Whether a range is open behind an entry follows from the entry and from what
/// was open in front of it.
proof fn lemma_open_step(s: Seq<u8>, starts: Seq<int>, i: int)
    requires
        0 <= i,
    ensures
        starts_range(s, starts[i]) ==> range_open(s, starts, i, i + 1),
        s[starts[i]] == 0x04 ==> forall|j: int| !#[trigger] range_open(s, starts, j, i + 1),
        !starts_range(s, starts[i]) && s[starts[i]] != 0x04 ==> forall|j: int| #[trigger]
            range_open(s, starts, j, i + 1) == range_open(s, starts, j, i),
{
    assert forall|j: int| s[starts[i]] == 0x04 implies !#[trigger] range_open(
        s,
        starts,
        j,
        i + 1,
    ) by {
        if range_open(s, starts, j, i + 1) {
            if j < i {
                assert(s[starts[i]] != 0x04);
            }
        }
    }
    assert forall|j: int|
        !starts_range(s, starts[i]) && s[starts[i]] != 0x04 implies #[trigger] range_open(
        s,
        starts,
        j,
        i + 1,
    ) == range_open(s, starts, j, i) by {
        if range_open(s, starts, j, i) {
            assert forall|m: int| j < m < i + 1 implies !starts_range(s, #[trigger] starts[m])
                && s[starts[m]] != 0x04 by {
                if m < i {
                    assert(!starts_range(s, starts[m]));
                }
            }
        }
        if range_open(s, starts, j, i + 1) {
            assert(j != i);
            assert forall|m: int| j < m < i implies !starts_range(s, #[trigger] starts[m])
                && s[starts[m]] != 0x04 by {
                assert(!starts_range(s, starts[m]));
            }
        }
    }
}

/// What entry `i` means, given what is open in front of it.
#[verifier::rlimit(40)]
proof fn lemma_entry_meaning(
    s: Seq<u8>,
    starts: Seq<int>,
    i: int,
    open: Option<PendingIvhdRange>,
)
    requires
        0 <= i < starts.len() - 1,
        entry_follows(s, starts, i),
        pending(s, starts, i, open),
    ensures
        match super::ivrs::entry_meaning(s, starts[i], open) {
            Err(_) => reversed(s, starts, i),
            Ok((entry, next)) => {
                &&& !reversed(s, starts, i)
                &&& pending(s, starts, i + 1, next)
                &&& entry is Some == listed(s, starts, i)
                &&& entry matches Some(entry) ==> entry_reads(s, starts, i, entry)
            },
        },
{
    lemma_open_step(s, starts, i);
    let at = starts[i];
    assert forall|j: int, k: int|
        #[trigger] range_open(s, starts, j, i) && #[trigger] range_open(s, starts, k, i) implies j
        == k by {
        lemma_one_open(s, starts, j, k, i);
    }
    if open is Some {
        let first = open->0;
        let j = choose|j: int|
            {
                &&& #[trigger] range_open(s, starts, j, i)
                &&& first.start.0 == bytes::le16(s, starts[j] + 2)
                &&& first.data_setting == s[starts[j] + 1]
                &&& match first.kind {
                    PendingIvhdRangeKind::Plain => s[starts[j]] == 0x03,
                    PendingIvhdRangeKind::Alias { source } => s[starts[j]] == 0x43 && source.0
                        == bytes::le16(s, starts[j] + 6),
                    PendingIvhdRangeKind::Extended { extended_data_setting } => s[starts[j]]
                        == 0x47 && extended_data_setting == bytes::le32(s, starts[j] + 4),
                }
            };
        assert(range_open(s, starts, j, i));
        if s[at] == 0x04 {
            assert(ends_range(s, starts, j, i));
        } else if !starts_range(s, at) {
            assert(range_open(s, starts, j, i + 1));
        }
    }
    if s[at] == 0x04 {
        if reversed(s, starts, i) {
            let k = choose|k: int| #[trigger]
                ends_range(s, starts, k, i) && bytes::le16(s, at + 2) < bytes::le16(
                    s,
                    starts[k] + 2,
                );
            assert(range_open(s, starts, k, i));
        }
    } else {
        assert(forall|j: int| !#[trigger] ends_range(s, starts, j, i));
    }
    if starts_range(s, at) {
        assert(range_open(s, starts, i, i + 1));
    }
}

proof fn lemma_entry_bounds(s: Seq<u8>, first: int, end: int, starts: Seq<int>, i: int)
    requires
        entry_starts(s, first, end, starts),
        0 <= i < starts.len(),
    ensures
        starts[i] <= end,
        i < starts.len() - 1 ==> starts[i] + entry_length(s, starts[i]) <= end,
    decreases starts.len() - i,
{
    if i < starts.len() - 1 {
        assert(entry_follows(s, starts, i));
        lemma_entry_bounds(s, first, end, starts, i + 1);
    }
}

proof fn lemma_entry_lower(s: Seq<u8>, first: int, end: int, starts: Seq<int>, i: int)
    requires
        entry_starts(s, first, end, starts),
        0 <= i < starts.len(),
    ensures
        first <= starts[i],
    decreases i,
{
    if i > 0 {
        assert(entry_follows(s, starts, i - 1));
        lemma_entry_lower(s, first, end, starts, i - 1);
    }
}

proof fn lemma_listed_grows(s: Seq<u8>, starts: Seq<int>, i: int, j: int)
    requires
        0 <= i <= j,
    ensures
        listed_before(s, starts, i) <= listed_before(s, starts, j),
    decreases j,
{
    if i < j {
        lemma_listed_grows(s, starts, i, j - 1);
    }
}

/// Entry `k` stands on the list where it belongs, counted from entry `i` on.
spec fn stands(s: Seq<u8>, starts: Seq<int>, i: int, items: Seq<DeviceEntry>, k: int) -> bool {
    listed(s, starts, k) ==> {
        let place = listed_before(s, starts, k) - listed_before(s, starts, i);
        0 <= place < items.len() && entry_reads(s, starts, k, items[place])
    }
}

#[verifier::rlimit(40)]
proof fn lemma_entries_from(
    s: Seq<u8>,
    block: int,
    length: int,
    offset: int,
    starts: Seq<int>,
    i: int,
    open: Option<PendingIvhdRange>,
)
    requires
        entry_starts(s, block + offset, block + length, starts),
        0 <= block,
        0 <= offset,
        block + length <= s.len(),
        0 <= i < starts.len(),
        pending(s, starts, i, open),
    ensures
        ({
            let walk = super::ivrs::device_entries(s, block, length, starts[i] - block, open);
            let last = starts.len() - 1;
            &&& walk.error is None <==> forall|k: int|
                i <= k < last ==> !#[trigger] reversed(s, starts, k)
            &&& walk.error is None ==> {
                &&& walk.items.len() == listed_before(s, starts, last) - listed_before(s, starts, i)
                &&& forall|k: int| i <= k < last ==> #[trigger] stands(s, starts, i, walk.items, k)
            }
        }),
    decreases starts.len() - i,
{
    let last = starts.len() - 1;
    let at = starts[i];
    let walk = super::ivrs::device_entries(s, block, length, at - block, open);
    lemma_entry_bounds(s, block + offset, block + length, starts, i);
    lemma_entry_lower(s, block + offset, block + length, starts, i);
    if i < last {
        assert(entry_follows(s, starts, i));
        assert(super::ivrs::entry_size(s, at) == entry_length(s, at));
        lemma_entry_meaning(s, starts, i, open);
        let meaning = super::ivrs::entry_meaning(s, at, open);
        if meaning is Ok {
            let (entry, next) = meaning->Ok_0;
            lemma_entries_from(s, block, length, offset, starts, i + 1, next);
            let rest = super::ivrs::device_entries(
                s,
                block,
                length,
                starts[i + 1] - block,
                next,
            );
            if entry is Some {
                assert(walk == Walk::cons(entry->0, rest));
                Walk::lemma_cons(entry->0, rest);
            } else {
                assert(walk == rest);
            }
            assert(walk.error == rest.error);
            if walk.error is None {
                assert forall|k: int| i <= k < last implies !#[trigger] reversed(s, starts, k) by {
                    if k > i {
                        assert(!reversed(s, starts, k));
                    }
                }
                assert forall|k: int| i <= k < last implies #[trigger] stands(
                    s,
                    starts,
                    i,
                    walk.items,
                    k,
                ) by {
                    if k > i {
                        assert(stands(s, starts, i + 1, rest.items, k));
                        lemma_listed_grows(s, starts, i + 1, k);
                        if listed(s, starts, k) && entry is Some {
                            let place = listed_before(s, starts, k) - listed_before(s, starts, i);
                            assert(walk.rest().items[place - 1] == walk.items[place]);
                        }
                    }
                }
            }
        }
    }
}

/// Every device entry of a block is read from its own bytes, in order, and the
/// end of a range together with its start: the entries are refused exactly
/// where a range ends in front of where it starts.
pub proof fn law_entries_are_read_where_they_start(
    s: Seq<u8>,
    block: int,
    length: int,
    offset: int,
    starts: Seq<int>,
)
    requires
        entry_starts(s, block + offset, block + length, starts),
        0 <= block,
        0 <= offset,
        block + length <= s.len(),
    ensures
        ({
            let walk = super::ivrs::device_entries(s, block, length, offset, None);
            let last = starts.len() - 1;
            &&& walk.error is None <==> forall|i: int|
                0 <= i < last ==> !#[trigger] reversed(s, starts, i)
            &&& walk.error is None ==> {
                &&& walk.items.len() == listed_before(s, starts, last)
                &&& forall|i: int|
                    0 <= i < last && #[trigger] listed(s, starts, i) ==> {
                        &&& listed_before(s, starts, i) < walk.items.len()
                        &&& entry_reads(
                            s,
                            starts,
                            i,
                            walk.items[listed_before(s, starts, i) as int],
                        )
                    }
            }
        }),
{
    assert(pending(s, starts, 0, None));
    lemma_entries_from(s, block, length, offset, starts, 0, None);
    let walk = super::ivrs::device_entries(s, block, length, offset, None);
    let last = starts.len() - 1;
    if walk.error is None {
        assert forall|i: int| 0 <= i < last && #[trigger] listed(s, starts, i) implies {
            &&& listed_before(s, starts, i) < walk.items.len()
            &&& entry_reads(s, starts, i, walk.items[listed_before(s, starts, i) as int])
        } by {
            assert(stands(s, starts, 0, walk.items, i));
        }
    }
}

/// A range start with the identity `a` in its bytes `[2..4]` and behind it, with
/// no other start or end of a range between them, a range end with an identity
/// `b` that is not below `a`: the list holds one range from `a` to `b` for the
/// two, with the settings of the start.
#[verifier::rlimit(40)]
pub proof fn law_range_runs_from_its_start_to_its_end(
    s: Seq<u8>,
    block: int,
    length: int,
    offset: int,
    starts: Seq<int>,
    j: int,
    i: int,
)
    requires
        entry_starts(s, block + offset, block + length, starts),
        0 <= block,
        0 <= offset,
        block + length <= s.len(),
        i < starts.len() - 1,
        ends_range(s, starts, j, i),
        super::ivrs::device_entries(s, block, length, offset, None).error is None,
    ensures
        bytes::le16(s, starts[j] + 2) <= bytes::le16(s, starts[i] + 2),
        ({
            let items = super::ivrs::device_entries(s, block, length, offset, None).items;
            let place = listed_before(s, starts, i) as int;
            &&& place < items.len()
            &&& match items[place] {
                DeviceEntry::Range { start, end, data_setting } => {
                    &&& s[starts[j]] == 0x03
                    &&& start.0 == bytes::le16(s, starts[j] + 2)
                    &&& end.0 == bytes::le16(s, starts[i] + 2)
                    &&& data_setting == s[starts[j] + 1]
                },
                DeviceEntry::AliasRange { start, end, source, data_setting } => {
                    &&& s[starts[j]] == 0x43
                    &&& start.0 == bytes::le16(s, starts[j] + 2)
                    &&& end.0 == bytes::le16(s, starts[i] + 2)
                    &&& source.0 == bytes::le16(s, starts[j] + 6)
                    &&& data_setting == s[starts[j] + 1]
                },
                DeviceEntry::ExtendedRange { start, end, data_setting, extended_data_setting } => {
                    &&& s[starts[j]] == 0x47
                    &&& start.0 == bytes::le16(s, starts[j] + 2)
                    &&& end.0 == bytes::le16(s, starts[i] + 2)
                    &&& data_setting == s[starts[j] + 1]
                    &&& extended_data_setting == bytes::le32(s, starts[j] + 4)
                },
                _ => false,
            }
        }),
{
    law_entries_are_read_where_they_start(s, block, length, offset, starts);
    assert(!reversed(s, starts, i));
    assert(listed(s, starts, i));
    assert forall|k: int| #[trigger] ends_range(s, starts, k, i) implies k == j by {
        lemma_one_open(s, starts, j, k, i);
    }
}

/// Entry `i` of a block names the requester `id`: by the identity of a device,
/// or as the end of a range in which it lies.
pub open spec fn entry_names(s: Seq<u8>, starts: Seq<int>, i: int, id: int) -> bool {
    let at = starts[i];
    ||| (s[at] == 0x02 || s[at] == 0x42 || s[at] == 0x46) && bytes::le16(s, at + 2) == id
    ||| s[at] == 0x48 && bytes::le16(s, at + 6) == id
    ||| s[at] == 0xf0 && bytes::le16(s, at + 1) == id
    ||| exists|j: int| #[trigger] ends_range(s, starts, j, i) && bytes::le16(s, starts[j] + 2)
        <= id <= bytes::le16(s, at + 2)
}

/// One of the entries of a block names the requester `id`.
pub open spec fn entries_name(s: Seq<u8>, starts: Seq<int>, id: int) -> bool {
    exists|i: int| 0 <= i < starts.len() - 1 && #[trigger] entry_names(s, starts, i, id)
}

/// One of the entries of a block stands for all devices.
pub open spec fn entries_name_all(s: Seq<u8>, starts: Seq<int>) -> bool {
    exists|i: int| 0 <= i < starts.len() - 1 && s[#[trigger] starts[i]] == 0x01
}

/// One of the entries of a block stands for devices of its own.
pub open spec fn entries_name_devices(s: Seq<u8>, starts: Seq<int>) -> bool {
    exists|i: int|
        0 <= i < starts.len() - 1 && #[trigger] listed(s, starts, i) && s[starts[i]] != 0x00
            && s[starts[i]] != 0x01
}

/// The entry that stands at a place of the list.
proof fn lemma_listed_at(s: Seq<u8>, starts: Seq<int>, n: int, place: int) -> (i: int)
    requires
        0 <= n,
        0 <= place < listed_before(s, starts, n),
    ensures
        0 <= i < n,
        listed(s, starts, i),
        listed_before(s, starts, i) == place,
    decreases n,
{
    if place < listed_before(s, starts, n - 1) {
        lemma_listed_at(s, starts, n - 1, place)
    } else {
        n - 1
    }
}

/// What the list of a block's entries names is what the bytes of its entries
/// name.
#[verifier::rlimit(40)]
proof fn lemma_entries_name(
    s: Seq<u8>,
    block: int,
    length: int,
    offset: int,
    starts: Seq<int>,
    id: int,
)
    requires
        entry_starts(s, block + offset, block + length, starts),
        0 <= block,
        0 <= offset,
        block + length <= s.len(),
        super::ivrs::device_entries(s, block, length, offset, None).error is None,
    ensures
        ({
            let items = super::ivrs::device_entries(s, block, length, offset, None).items;
            &&& crate::walk::any(items, super::ivrs::entry_names(id)) == entries_name(
                s,
                starts,
                id,
            )
            &&& super::ivrs::names_all(items) == entries_name_all(s, starts)
            &&& super::ivrs::names_devices(items) == entries_name_devices(s, starts)
            &&& forall|k: int| 0 <= k < items.len() ==> #[trigger] in_order(items[k])
        }),
{
    law_entries_are_read_where_they_start(s, block, length, offset, starts);
    let items = super::ivrs::device_entries(s, block, length, offset, None).items;
    let last = starts.len() - 1;
    let names = super::ivrs::entry_names(id);
    assert forall|k: int| 0 <= k < items.len() implies #[trigger] in_order(items[k]) by {
        let i = lemma_listed_at(s, starts, last, k);
        assert(listed(s, starts, i));
        assert(!reversed(s, starts, i));
    }
    assert forall|i: int| 0 <= i < last && #[trigger] listed(s, starts, i) implies {
        let entry = items[listed_before(s, starts, i) as int];
        &&& names(entry) == entry_names(s, starts, i, id)
        &&& entry is All == (s[starts[i]] == 0x01)
        &&& entry is Pad == (s[starts[i]] == 0x00)
    } by {
        let entry = items[listed_before(s, starts, i) as int];
        assert(entry_reads(s, starts, i, entry));
        if exists|j: int| #[trigger] ends_range(s, starts, j, i) {
            let j = choose|j: int| #[trigger] ends_range(s, starts, j, i);
            assert forall|k: int| #[trigger] ends_range(s, starts, k, i) implies k == j by {
                lemma_one_open(s, starts, j, k, i);
            }
            assert(entry_names(s, starts, i, id) == (bytes::le16(s, starts[j] + 2) <= id
                <= bytes::le16(s, starts[i] + 2)));
        }
    }
    if crate::walk::any(items, names) {
        let k = choose|k: int| 0 <= k < items.len() && names(#[trigger] items[k]);
        let i = lemma_listed_at(s, starts, last, k);
        assert(listed(s, starts, i));
        assert(entry_names(s, starts, i, id));
    }
    if entries_name(s, starts, id) {
        let i = choose|i: int| 0 <= i < last && #[trigger] entry_names(s, starts, i, id);
        assert(listed(s, starts, i));
        assert(names(items[listed_before(s, starts, i) as int]));
    }
    if super::ivrs::names_all(items) {
        let k = choose|k: int| 0 <= k < items.len() && (#[trigger] items[k]) is All;
        let i = lemma_listed_at(s, starts, last, k);
        assert(listed(s, starts, i));
        assert(s[starts[i]] == 0x01);
    }
    if entries_name_all(s, starts) {
        let i = choose|i: int| 0 <= i < last && s[#[trigger] starts[i]] == 0x01;
        assert(listed(s, starts, i));
        assert(items[listed_before(s, starts, i) as int] is All);
    }
    if super::ivrs::names_devices(items) {
        let k = choose|k: int|
            0 <= k < items.len() && !((#[trigger] items[k]) is All) && !(items[k] is Pad);
        let i = lemma_listed_at(s, starts, last, k);
        assert(listed(s, starts, i));
        assert(s[starts[i]] != 0x01 && s[starts[i]] != 0x00);
    }
    if entries_name_devices(s, starts) {
        let i = choose|i: int|
            0 <= i < last && #[trigger] listed(s, starts, i) && s[starts[i]] != 0x00
                && s[starts[i]] != 0x01;
        let entry = items[listed_before(s, starts, i) as int];
        assert(!(entry is All) && !(entry is Pad));
    }
}

/// The range of an entry, where it is one, does not end in front of its start.
spec fn in_order(entry: DeviceEntry) -> bool {
    match entry {
        DeviceEntry::Range { start, end, .. } => start.0 <= end.0,
        DeviceEntry::AliasRange { start, end, .. } => start.0 <= end.0,
        DeviceEntry::ExtendedRange { start, end, .. } => start.0 <= end.0,
        _ => true,
    }
}

/// The block that starts at `starts[i]` has a header inside the table, and the
/// next one starts where the length in its bytes `[2..4]` ends.
pub open spec fn block_follows(s: Seq<u8>, starts: Seq<int>, i: int) -> bool {
    &&& starts[i] + 4 <= s.len()
    &&& bytes::le16(s, starts[i] + 2) >= 4
    &&& starts[i + 1] == starts[i] + bytes::le16(s, starts[i] + 2)
}

/// These are the places where the blocks of a table start, and its end: the
/// first block stands behind the fixed header of 48 bytes.
pub open spec fn block_starts(s: Seq<u8>, starts: Seq<int>) -> bool {
    &&& starts.len() > 0
    &&& starts[0] == 48
    &&& starts.last() == s.len()
    &&& forall|i: int| 0 <= i < starts.len() - 1 ==> #[trigger] block_follows(s, starts, i)
}

/// The block at `at` defines a unit.
pub open spec fn defines_unit(s: Seq<u8>, at: int) -> bool {
    s[at] == 0x10 || s[at] == 0x11 || s[at] == 0x40
}

/// The block at `at` defines memory.
pub open spec fn defines_memory(s: Seq<u8>, at: int) -> bool {
    0x20 <= s[at] <= 0x22
}

/// Where the device entries of the unit at `at` start: behind 24 bytes in a
/// block of the first kind, behind 40 in the others.
pub open spec fn first_entry(s: Seq<u8>, at: int) -> int {
    at + (if s[at] == 0x10 {
        24int
    } else {
        40
    })
}

/// The entries of the unit at `at` start at the given places, in a block that
/// is long enough for its kind, and none of its ranges is reversed; or the
/// memory at `at` is not empty. The addresses can be used.
pub open spec fn block_sound(s: Seq<u8>, at: int, entries: Seq<int>) -> bool {
    let length = bytes::le16(s, at + 2);
    let base = bytes::le64(s, at + 8);
    &&& defines_unit(s, at) ==> {
        &&& first_entry(s, at) <= at + length
        &&& base + 0x4000 <= usize::MAX
        &&& entry_starts(s, first_entry(s, at), at + length, entries)
        &&& forall|i: int| 0 <= i < entries.len() - 1 ==> !#[trigger] reversed(s, entries, i)
    }
    &&& defines_memory(s, at) ==> {
        &&& length >= 24
        &&& bytes::le64(s, at + 16) > 0
        &&& base + bytes::le64(s, at + 16) <= usize::MAX
    }
}

/// The unit with these registers is defined at `at`: 16 KiB at the address in
/// bytes `[8..16]`.
pub open spec fn unit_at(s: Seq<u8>, at: int, registers: MmioAddrRange) -> bool {
    &&& defines_unit(s, at)
    &&& registers.start.value() == bytes::le64(s, at + 8)
    &&& registers.end.value() == bytes::le64(s, at + 8) + 0x4000
}

/// What was read is what the bytes of the block at `at` say.
pub open spec fn block_reads(s: Seq<u8>, at: int, entries: Seq<int>, block: IvrsBlock) -> bool {
    let length = bytes::le16(s, at + 2) as int;
    match block {
        IvrsBlock::Ivhd(unit) => {
            &&& defines_unit(s, at)
            &&& unit.block_type == s[at]
            &&& unit.flags == s[at + 1]
            &&& unit_at(s, at, unit.registers)
            &&& unit.device.0 == bytes::le16(s, at + 16) * 0x1_0000 + bytes::le16(s, at + 4)
            &&& unit.capability_offset == bytes::le16(s, at + 6)
            &&& unit.iommu_info == bytes::le16(s, at + 18)
            &&& s[at] == 0x10 ==> unit.feature_info == Some(bytes::le32(s, at + 20))
                && unit.efr is None
            &&& s[at] != 0x10 ==> unit.efr == Some(bytes::le64(s, at + 24)) && unit.feature_info
                is None
            &&& unit.include_all == entries_name_all(s, entries)
            &&& unit.has_device_scopes == entries_name_devices(s, entries)
            &&& unit.block_offset == at
            &&& unit.length == length
        },
        IvrsBlock::Ivmd(memory) => {
            &&& defines_memory(s, at)
            &&& memory.ivmd_type == s[at]
            &&& memory.flags == s[at + 1]
            &&& memory.device_id.0 == bytes::le16(s, at + 4)
            &&& memory.aux_device_id.0 == bytes::le16(s, at + 6)
            &&& memory.memory.start.0 == bytes::le64(s, at + 8)
            &&& memory.memory.end.0 == bytes::le64(s, at + 8) + bytes::le64(s, at + 16)
        },
        IvrsBlock::Unknown(other) => {
            &&& !defines_unit(s, at)
            &&& !defines_memory(s, at)
            &&& other.kind == s[at]
            &&& other.offset == at
            &&& other.length == length
        },
    }
}

/// A block that is sound is read from its own bytes.
#[verifier::rlimit(40)]
proof fn lemma_block_content(s: Seq<u8>, at: int, entries: Seq<int>)
    requires
        0 <= at,
        at + 4 <= s.len(),
        at + bytes::le16(s, at + 2) <= s.len() <= usize::MAX,
        block_sound(s, at, entries),
    ensures
        super::ivrs::block_content(s, at, bytes::le16(s, at + 2) as int, s[at]) matches Ok(block)
            && block_reads(s, at, entries, block),
{
    let length = bytes::le16(s, at + 2) as int;
    if defines_unit(s, at) {
        let offset = first_entry(s, at) - at;
        law_entries_are_read_where_they_start(s, at, length, offset, entries);
        lemma_entries_name(s, at, length, offset, entries, 0);
        crate::addr::law_mmio_window_bounds(bytes::le64(s, at + 8) as usize, 0x4000);
    }
}

proof fn lemma_block_bounds(s: Seq<u8>, starts: Seq<int>, i: int)
    requires
        block_starts(s, starts),
        0 <= i < starts.len(),
    ensures
        starts[i] <= s.len(),
    decreases starts.len() - i,
{
    if i < starts.len() - 1 {
        lemma_block_bounds(s, starts, i + 1);
        assert(block_follows(s, starts, i));
    }
}

proof fn lemma_block_lower(s: Seq<u8>, starts: Seq<int>, i: int)
    requires
        block_starts(s, starts),
        0 <= i < starts.len(),
    ensures
        48 <= starts[i],
    decreases i,
{
    if i > 0 {
        lemma_block_lower(s, starts, i - 1);
        assert(block_follows(s, starts, i - 1));
    }
}

/// The places of a table that is read to its end: where its blocks start, and
/// for each block where its device entries do.
pub open spec fn laid_out(s: Seq<u8>, starts: Seq<int>, entries: Seq<Seq<int>>) -> bool {
    &&& s.len() <= usize::MAX
    &&& block_starts(s, starts)
    &&& entries.len() == starts.len() - 1
    &&& forall|i: int|
        0 <= i < starts.len() - 1 ==> block_sound(s, #[trigger] starts[i], entries[i])
}

/// Item `j` is read from the block `j` places behind the `i`th.
spec fn reads_at(
    s: Seq<u8>,
    starts: Seq<int>,
    entries: Seq<Seq<int>>,
    i: int,
    items: Seq<IvrsBlock>,
    j: int,
) -> bool {
    block_reads(s, starts[i + j], entries[i + j], items[j])
}

/// The blocks from the `i`th on.
proof fn lemma_blocks_from(s: Seq<u8>, starts: Seq<int>, entries: Seq<Seq<int>>, i: int)
    requires
        laid_out(s, starts, entries),
        0 <= i < starts.len(),
    ensures
        ({
            let walk = super::ivrs::blocks_from(s, starts[i]);
            &&& walk.error is None
            &&& walk.items.len() == starts.len() - 1 - i
            &&& i < starts.len() - 1 ==> {
                &&& walk.rest() == super::ivrs::blocks_from(s, starts[i + 1])
                &&& 0 <= starts[i]
                &&& starts[i] + bytes::le16(s, starts[i] + 2) <= s.len()
                &&& block_sound(s, starts[i], entries[i])
                &&& block_reads(s, starts[i], entries[i], walk.items[0])
            }
            &&& forall|j: int|
                0 <= j < walk.items.len() ==> #[trigger] reads_at(
                    s,
                    starts,
                    entries,
                    i,
                    walk.items,
                    j,
                )
        }),
    decreases starts.len() - i,
{
    lemma_block_bounds(s, starts, i);
    lemma_block_lower(s, starts, i);
    let walk = super::ivrs::blocks_from(s, starts[i]);
    if i < starts.len() - 1 {
        assert(block_follows(s, starts, i));
        lemma_block_bounds(s, starts, i + 1);
        lemma_blocks_from(s, starts, entries, i + 1);
        assert(block_sound(s, starts[i], entries[i]));
        lemma_block_content(s, starts[i], entries[i]);
        let first = super::ivrs::block_at(s, starts[i]).0->Ok_0;
        let rest = super::ivrs::blocks_from(s, starts[i + 1]);
        assert(walk == Walk::cons(first, rest));
        Walk::lemma_cons(first, rest);
        assert forall|j: int| 0 <= j < walk.items.len() implies #[trigger] reads_at(
            s,
            starts,
            entries,
            i,
            walk.items,
            j,
        ) by {
            if j > 0 {
                assert(walk.rest().items[j - 1] == walk.items[j]);
                assert(reads_at(s, starts, entries, i + 1, rest.items, j - 1));
            }
        }
    }
}

/// Every block of a table is read, in order, from its own bytes.
pub proof fn law_blocks_are_read_where_they_start(
    s: Seq<u8>,
    starts: Seq<int>,
    entries: Seq<Seq<int>>,
)
    requires
        laid_out(s, starts, entries),
    ensures
        ({
            let walk = super::ivrs::blocks_from(s, 48);
            &&& walk.error is None
            &&& walk.items.len() == starts.len() - 1
            &&& forall|i: int|
                0 <= i < walk.items.len() ==> block_reads(
                    s,
                    starts[i],
                    entries[i],
                    #[trigger] walk.items[i],
                )
        }),
{
    lemma_blocks_from(s, starts, entries, 0);
    let walk = super::ivrs::blocks_from(s, 48);
    assert forall|i: int| 0 <= i < walk.items.len() implies block_reads(
        s,
        starts[i],
        entries[i],
        #[trigger] walk.items[i],
    ) by {
        assert(reads_at(s, starts, entries, 0, walk.items, i));
    }
}

/// A unit is refused where its block is too short for its kind, where a range
/// of its device entries is reversed, or where its registers do not fit into
/// the address space; a memory block where it is too short, empty or too long.
pub proof fn law_unsound_block_is_refused(s: Seq<u8>, at: int, entries: Seq<int>)
    requires
        0 <= at,
        at + 4 <= s.len(),
        at + bytes::le16(s, at + 2) <= s.len() <= usize::MAX,
        bytes::le16(s, at + 2) >= 4,
        !block_sound(s, at, entries),
        defines_unit(s, at) ==> entry_starts(
            s,
            first_entry(s, at),
            at + bytes::le16(s, at + 2),
            entries,
        ) || first_entry(s, at) > at + bytes::le16(s, at + 2),
    ensures
        super::ivrs::blocks_from(s, at).items.len() == 0,
        super::ivrs::blocks_from(s, at).error is Some,
{
    let length = bytes::le16(s, at + 2) as int;
    if defines_unit(s, at) && first_entry(s, at) <= at + length {
        let offset = first_entry(s, at) - at;
        law_entries_are_read_where_they_start(s, at, length, offset, entries);
    }
}

/// Some block defines the unit.
pub open spec fn unit_found(s: Seq<u8>, starts: Seq<int>, registers: MmioAddrRange) -> bool {
    exists|k: int| 0 <= k < starts.len() - 1 && unit_at(s, #[trigger] starts[k], registers)
}

/// Some block that defines the unit has an entry for all devices.
pub open spec fn unit_names_all(
    s: Seq<u8>,
    starts: Seq<int>,
    entries: Seq<Seq<int>>,
    registers: MmioAddrRange,
) -> bool {
    exists|k: int|
        0 <= k < starts.len() - 1 && unit_at(s, #[trigger] starts[k], registers)
            && entries_name_all(s, entries[k])
}

/// Some block that defines the unit, and has no entry for all devices, has an
/// entry that names the requester.
pub open spec fn unit_names(
    s: Seq<u8>,
    starts: Seq<int>,
    entries: Seq<Seq<int>>,
    registers: MmioAddrRange,
    id: int,
) -> bool {
    exists|k: int|
        0 <= k < starts.len() - 1 && unit_at(s, #[trigger] starts[k], registers)
            && !entries_name_all(s, entries[k]) && entries_name(s, entries[k], id)
}

/// The number of listed device entries of a unit's blocks, from the `i`th on.
pub open spec fn unit_entries(
    s: Seq<u8>,
    starts: Seq<int>,
    entries: Seq<Seq<int>>,
    registers: MmioAddrRange,
    i: int,
) -> nat
    decreases starts.len() - i,
{
    if i < starts.len() - 1 {
        (if unit_at(s, starts[i], registers) {
            listed_before(s, entries[i], entries[i].len() - 1)
        } else {
            0
        }) + unit_entries(s, starts, entries, registers, i + 1)
    } else {
        0
    }
}

/// Taking in a list of entries.
#[verifier::rlimit(40)]
proof fn lemma_scan_entries(scan: RequesterScan, walk: Walk<DeviceEntry, IvrsError>)
    requires
        crate::firm::pcie::canonical(scan.runs),
        scan.runs.len() <= 16,
        walk.error is None,
        forall|k: int| 0 <= k < walk.items.len() ==> #[trigger] in_order(walk.items[k]),
    ensures
        match scan.entries(walk) {
            Ok(after) => {
                &&& crate::firm::pcie::canonical(after.runs)
                &&& after.runs.len() <= 16
                &&& after.runs.len() <= scan.runs.len() + walk.items.len()
                &&& after.found == scan.found
                &&& after.all == (scan.all || super::ivrs::names_all(walk.items))
            },
            Err(error) => {
                &&& error == IvrsError::BdfRanges(BdfRangeSetError::Full)
                &&& scan.runs.len() + walk.items.len() > 16
            },
        },
    decreases walk.items.len(),
{
    if walk.items.len() > 0 {
        let entry = walk.items[0];
        assert(in_order(entry));
        let (lo, hi): (int, int) = match entry {
            DeviceEntry::Pad => (0, 0),
            DeviceEntry::All { .. } => (0, 0),
            DeviceEntry::Select { device_id, .. } => (device_id.0 as int, device_id.0 + 1),
            DeviceEntry::AliasSelect { device_id, .. } => (device_id.0 as int, device_id.0 + 1),
            DeviceEntry::ExtendedSelect { device_id, .. } => (device_id.0 as int, device_id.0 + 1),
            DeviceEntry::Special { device_id, .. } => (device_id.0 as int, device_id.0 + 1),
            DeviceEntry::AcpiNamed { device_id, .. } => (device_id.0 as int, device_id.0 + 1),
            DeviceEntry::Range { start, end, .. } => (start.0 as int, end.0 + 1),
            DeviceEntry::AliasRange { start, end, .. } => (start.0 as int, end.0 + 1),
            DeviceEntry::ExtendedRange { start, end, .. } => (start.0 as int, end.0 + 1),
        };
        BdfRange::lemma_of_bounds(lo, hi);
        let range = BdfRange::of(lo, hi);
        crate::firm::pcie::law_adding_a_range_adds_its_identities(scan.runs, range, 16);
        crate::firm::pcie::law_a_range_finds_room_below_capacity(scan.runs, range, 16);
        let rest = walk.rest();
        assert(super::ivrs::names_all(walk.items) == (entry is All || super::ivrs::names_all(
            rest.items,
        ))) by {
            if super::ivrs::names_all(rest.items) {
                let i = choose|i: int| 0 <= i < rest.items.len() && (#[trigger] rest.items[i]) is All;
                assert(walk.items[i + 1] is All);
            }
            if super::ivrs::names_all(walk.items) && !(entry is All) {
                let i = choose|i: int| 0 <= i < walk.items.len() && (#[trigger] walk.items[i]) is All;
                assert(rest.items[i - 1] is All);
            }
        }
        assert forall|k: int| 0 <= k < rest.items.len() implies #[trigger] in_order(
            rest.items[k],
        ) by {
            assert(in_order(walk.items[k + 1]));
        }
        if scan.entry(entry) is Ok {
            lemma_scan_entries(scan.entry(entry)->Ok_0, rest);
        }
    } else {
        assert(!super::ivrs::names_all(walk.items));
    }
}

#[verifier::rlimit(40)]
proof fn lemma_scan_blocks(
    s: Seq<u8>,
    starts: Seq<int>,
    entries: Seq<Seq<int>>,
    registers: MmioAddrRange,
    i: int,
    scan: RequesterScan,
)
    requires
        laid_out(s, starts, entries),
        0 <= i < starts.len(),
        crate::firm::pcie::canonical(scan.runs),
        scan.runs.len() <= 16,
    ensures
        match scan.blocks(s, registers, super::ivrs::blocks_from(s, starts[i])) {
            Ok(after) => {
                &&& crate::firm::pcie::canonical(after.runs)
                &&& after.found == (scan.found || exists|k: int|
                    i <= k < starts.len() - 1 && unit_at(s, #[trigger] starts[k], registers))
                &&& after.all == (scan.all || exists|k: int|
                    i <= k < starts.len() - 1 && unit_at(s, #[trigger] starts[k], registers)
                        && entries_name_all(s, entries[k]))
            },
            Err(error) => {
                &&& error == IvrsError::BdfRanges(BdfRangeSetError::Full)
                &&& scan.runs.len() + unit_entries(s, starts, entries, registers, i) > 16
            },
        },
    decreases starts.len() - i,
{
    lemma_blocks_from(s, starts, entries, i);
    let walk = super::ivrs::blocks_from(s, starts[i]);
    if i < starts.len() - 1 {
        let at = starts[i];
        let length = bytes::le16(s, at + 2) as int;
        let here = entries[i];
        match walk.items[0] {
            IvrsBlock::Ivhd(unit) => {
                let offset = first_entry(s, at) - at;
                law_entries_are_read_where_they_start(s, at, length, offset, here);
                lemma_entries_name(s, at, length, offset, here, 0);
                assert(unit.registers.same_bounds(registers) == unit_at(s, at, registers));
                lemma_scan_entries(
                    RequesterScan { found: true, ..scan },
                    super::ivrs::device_entries(s, at, length, offset, None),
                );
            },
            _ => {
                assert(!unit_at(s, at, registers));
            },
        }
        if scan.block(s, registers, walk.items[0]) is Ok {
            lemma_scan_blocks(
                s,
                starts,
                entries,
                registers,
                i + 1,
                scan.block(s, registers, walk.items[0])->Ok_0,
            );
        }
    }
}

/// The requesters of a unit are those that the device entries of its blocks
/// name, every identity of a range among them. There is a list of them where
/// the unit is in the table, no entry of it stands for all devices, and some
/// entry names a device; and sixteen entries always find room.
pub proof fn law_unit_ranges_follow_its_bytes(
    s: Seq<u8>,
    starts: Seq<int>,
    entries: Seq<Seq<int>>,
    registers: MmioAddrRange,
)
    requires
        laid_out(s, starts, entries),
    ensures
        match super::ivrs::spec_ivhd_bdf_ranges(s, registers) {
            Ok(Some(runs)) => {
                &&& unit_found(s, starts, registers)
                &&& !unit_names_all(s, starts, entries, registers)
                &&& crate::firm::pcie::canonical(runs)
                &&& forall|id: int| #[trigger]
                    crate::firm::pcie::covered(runs, id) == unit_names(
                        s,
                        starts,
                        entries,
                        registers,
                        id,
                    )
            },
            Ok(None) => {
                ||| !unit_found(s, starts, registers)
                ||| unit_names_all(s, starts, entries, registers)
                ||| forall|id: int| !#[trigger] unit_names(s, starts, entries, registers, id)
            },
            Err(error) => {
                &&& error == IvrsError::BdfRanges(BdfRangeSetError::Full)
                &&& unit_entries(s, starts, entries, registers, 0) > 16
            },
        },
{
    let start = RequesterScan::start();
    lemma_scan_blocks(s, starts, entries, registers, 0, start);
    let walk = super::ivrs::blocks_from(s, 48);
    let r = start.blocks(s, registers, walk);
    if r is Ok {
        let runs = r->Ok_0.runs;
        assert forall|id: int| #[trigger]
            crate::firm::pcie::covered(runs, id) == unit_names(
                s,
                starts,
                entries,
                registers,
                id,
            ) by {
            lemma_unit_covers(s, starts, entries, registers, id);
        }
        if runs.len() == 0 {
            assert forall|id: int| !#[trigger] unit_names(s, starts, entries, registers, id) by {
                assert(!crate::firm::pcie::covered(runs, id));
            }
        }
    }
}

#[verifier::rlimit(40)]
proof fn lemma_unit_covers(
    s: Seq<u8>,
    starts: Seq<int>,
    entries: Seq<Seq<int>>,
    registers: MmioAddrRange,
    id: int,
)
    requires
        laid_out(s, starts, entries),
        RequesterScan::start().blocks(s, registers, super::ivrs::blocks_from(s, 48)) is Ok,
    ensures
        crate::firm::pcie::covered(
            RequesterScan::start().blocks(s, registers, super::ivrs::blocks_from(s, 48))->Ok_0.runs,
            id,
        ) == unit_names(s, starts, entries, registers, id),
{
    let walk = super::ivrs::blocks_from(s, 48);
    let names = super::ivrs::block_names(s, registers, id);
    super::ivrs::lemma_blocks_add_what_they_name(RequesterScan::start(), s, registers, walk, id);
    law_blocks_are_read_where_they_start(s, starts, entries);
    assert forall|k: int| 0 <= k < starts.len() - 1 implies names(#[trigger] walk.items[k]) == (
    unit_at(s, starts[k], registers) && !entries_name_all(s, entries[k]) && entries_name(
        s,
        entries[k],
        id,
    )) by {
        lemma_blocks_from(s, starts, entries, k);
        assert(block_reads(s, starts[k], entries[k], walk.items[k]));
        match walk.items[k] {
            IvrsBlock::Ivhd(unit) => {
                let at = starts[k];
                let length = bytes::le16(s, at + 2) as int;
                let offset = first_entry(s, at) - at;
                law_entries_are_read_where_they_start(s, at, length, offset, entries[k]);
                lemma_entries_name(s, at, length, offset, entries[k], id);
                assert(unit.registers.same_bounds(registers) == unit_at(s, at, registers));
            },
            _ => {},
        }
    }
    if crate::walk::any(walk.items, names) {
        let k = choose|k: int| 0 <= k < walk.items.len() && names(#[trigger] walk.items[k]);
        assert(unit_at(s, starts[k], registers));
    }
    if unit_names(s, starts, entries, registers, id) {
        let k = choose|k: int|
            0 <= k < starts.len() - 1 && unit_at(s, #[trigger] starts[k], registers)
                && !entries_name_all(s, entries[k]) && entries_name(s, entries[k], id);
        assert(names(walk.items[k]));
    }
    assert(!crate::firm::pcie::covered(Seq::<BdfRange>::empty(), id));
}

/// The ranges that are returned for a unit hold every identity from the start
/// to the end of each of its ranges.
pub proof fn law_unit_ranges_hold_every_identity_of_a_range(
    s: Seq<u8>,
    starts: Seq<int>,
    entries: Seq<Seq<int>>,
    registers: MmioAddrRange,
    k: int,
    j: int,
    i: int,
    id: int,
)
    requires
        laid_out(s, starts, entries),
        0 <= k < starts.len() - 1,
        unit_at(s, starts[k], registers),
        !unit_names_all(s, starts, entries, registers),
        i < entries[k].len() - 1,
        ends_range(s, entries[k], j, i),
        bytes::le16(s, entries[k][j] + 2) <= id <= bytes::le16(s, entries[k][i] + 2),
    ensures
        match super::ivrs::spec_ivhd_bdf_ranges(s, registers) {
            Ok(Some(runs)) => crate::firm::pcie::covered(runs, id),
            Ok(None) => false,
            Err(error) => {
                &&& error == IvrsError::BdfRanges(BdfRangeSetError::Full)
                &&& unit_entries(s, starts, entries, registers, 0) > 16
            },
        },
{
    law_unit_ranges_follow_its_bytes(s, starts, entries, registers);
    assert(entry_names(s, entries[k], i, id));
    assert(unit_names(s, starts, entries, registers, id));
}

/// The block at `at` breaks the table off: its header does not lie in the table,
/// its length is below that of a header, or it leaves the table.
pub open spec fn block_broken(s: Seq<u8>, at: int) -> bool {
    &&& at < s.len()
    &&& at + 4 > s.len() || bytes::le16(s, at + 2) < 4 || at + bytes::le16(s, at + 2) > s.len()
}

/// A table in which a block is broken off is refused, wherever the block stands.
pub proof fn law_broken_block_is_refused(s: Seq<u8>, starts: Seq<int>, i: int)
    requires
        starts.len() > 0,
        forall|j: int| 0 <= j < starts.len() - 1 ==> #[trigger] block_follows(s, starts, j),
        block_broken(s, starts.last()),
        0 <= i < starts.len(),
    ensures
        super::ivrs::blocks_from(s, starts[i]).error is Some,
    decreases starts.len() - i,
{
    if i < starts.len() - 1 {
        assert(block_follows(s, starts, i));
        law_broken_block_is_refused(s, starts, i + 1);
    }
}

/// A scan over blocks or entries that are broken off is refused.
pub proof fn law_broken_table_gives_no_requesters(
    s: Seq<u8>,
    registers: MmioAddrRange,
    scan: RequesterScan,
    blocks: Walk<IvrsBlock, IvrsError>,
    entries: Walk<DeviceEntry, IvrsError>,
)
    ensures
        blocks.error is Some ==> scan.blocks(s, registers, blocks) is Err,
        entries.error is Some ==> scan.entries(entries) is Err,
    decreases blocks.items.len() + entries.items.len(),
{
    if blocks.items.len() > 0 && scan.block(s, registers, blocks.items[0]) is Ok {
        law_broken_table_gives_no_requesters(
            s,
            registers,
            scan.block(s, registers, blocks.items[0])->Ok_0,
            blocks.rest(),
            entries,
        );
    }
    if entries.items.len() > 0 && scan.entry(entries.items[0]) is Ok {
        law_broken_table_gives_no_requesters(
            s,
            registers,
            scan.entry(entries.items[0])->Ok_0,
            blocks,
            entries.rest(),
        );
    }
}

/// The entry at `at` breaks the list up to `end` off: it is of a known type and
/// leaves the block, where a named device has its length in its byte 21.
pub open spec fn entry_broken(s: Seq<u8>, at: int, end: int) -> bool {
    &&& at < end
    &&& s[at] <= 0xf0
    &&& (s[at] == 0xf0 && at + 22 > end) || at + entry_length(s, at) > end
}

/// A list of device entries in which one is broken off is refused, wherever it
/// stands.
pub proof fn law_broken_entry_is_refused(
    s: Seq<u8>,
    block: int,
    length: int,
    starts: Seq<int>,
    i: int,
    open: Option<PendingIvhdRange>,
)
    requires
        starts.len() > 0,
        forall|j: int| 0 <= j < starts.len() - 1 ==> #[trigger] entry_follows(s, starts, j),
        entry_broken(s, starts.last(), block + length),
        0 <= i < starts.len(),
    ensures
        super::ivrs::device_entries(s, block, length, starts[i] - block, open).error is Some,
    decreases starts.len() - i,
{
    if i < starts.len() - 1 {
        assert(entry_follows(s, starts, i));
        lemma_entries_grow(s, starts, i);
        let meaning = super::ivrs::entry_meaning(s, starts[i], open);
        if meaning is Ok {
            law_broken_entry_is_refused(s, block, length, starts, i + 1, meaning->Ok_0.1);
        }
    }
}

proof fn lemma_entries_grow(s: Seq<u8>, starts: Seq<int>, i: int)
    requires
        forall|j: int| 0 <= j < starts.len() - 1 ==> #[trigger] entry_follows(s, starts, j),
        0 <= i < starts.len(),
    ensures
        starts[i] <= starts.last(),
    decreases starts.len() - i,
{
    if i < starts.len() - 1 {
        assert(entry_follows(s, starts, i));
        lemma_entries_grow(s, starts, i + 1);
    }
}

/// A callback for units or for memory is called with every block that defines
/// one, whatever it holds, and for no other; a block that it is not called for
/// is no failure.
pub proof fn law_callbacks_get_all_of_their_kind<U, M>(
    block: IvrsBlock,
    r: Result<(), IvrsError>,
    ivinfo: u32,
    on_unit: U,
    on_memory: M,
) where U: Fn(u32, Ivhd) -> Result<(), IvrsError>, M: Fn(Ivmd) -> Result<(), IvrsError>
    ensures
        super::ivrs::ivhd_outcome(on_unit, ivinfo)(block, r) == (if block is Ivhd {
            call_ensures(on_unit, (ivinfo, block->Ivhd_0), r)
        } else {
            r is Ok
        }),
        super::ivrs::ivmd_outcome(on_memory)(block, r) == (if block is Ivmd {
            call_ensures(on_memory, (block->Ivmd_0,), r)
        } else {
            r is Ok
        }),
{
}

/// A callback for blocks or device entries is called with the very one that was
/// read.
pub proof fn law_callbacks_get_what_was_read<'a, B, E>(
    block: IvrsBlock,
    entry: DeviceEntry,
    r: Result<(), IvrsError>,
    on_block: B,
    on_entry: E,
) where
    B: Fn(IvrsBlock) -> Result<(), IvrsError>,
    E: Fn(IvhdDeviceEntry<'a>) -> Result<(), IvrsError>,

    ensures
        super::ivrs::block_outcome(on_block)(block, r) <==> call_ensures(on_block, (block,), r),
        super::ivrs::entry_outcome(on_entry)(entry, r) <==> exists|read: IvhdDeviceEntry<'a>|
            #[trigger] call_ensures(on_entry, (read,), r) && read@ == entry,
{
}

} // verus!
