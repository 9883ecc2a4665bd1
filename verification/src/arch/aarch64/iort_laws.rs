//! What an I/O remapping table says of nodes, identifiers and requesters, stated
//! over the bytes of the table, the places where its nodes start, and the fields
//! of its identifier mappings.

use vstd::prelude::*;

use super::iort::{
    IortError, IortIdMapping, IortIdTranslation, IortNode, IortNodeHeader, IortNodeKind, IortRequesterMatch,
    IortReservedMemory, IortRmrDescriptor, IortRootComplex, IortSingleStepTranslation, IortSmmuV3,
    Node, RequesterScan,
};
use crate::addr::{Address, PhysAddrRange};
use crate::bytes;
use crate::firm::pcie::{Bdf, BdfRange, BdfRangeSetError, PciDevice};
use crate::walk::Walk;

verus! {

/// A mapping applies to an identifier at a node of the given kind. A mapping
/// with bit 0 of its flags set applies to all identifiers, at nodes that may
/// have such mappings. Another one applies to the identifiers from its input
/// base on, `id_count` of them behind the first, where both ends and what the
/// identifier is mapped to are identifiers.
pub open spec fn applies(mapping: IortIdMapping, kind: IortNodeKind, id: u32) -> bool {
    if mapping.flags % 2 == 1 {
        kind is NamedComponent || kind is RootComplex || kind is SmmuV3 || kind is Pmcg
    } else {
        &&& mapping.input_base + mapping.id_count <= 0xffff_ffff
        &&& mapping.input_base <= id <= mapping.input_base + mapping.id_count
        &&& mapping.output_base + (id - mapping.input_base) <= 0xffff_ffff
    }
}

/// A step is where a mapping leads an identifier: to the output base, for a
/// range as far behind it as the identifier is behind the input base.
pub open spec fn leads(
    mapping: IortIdMapping,
    id: u32,
    step: IortSingleStepTranslation,
) -> bool {
    &&& step.output_reference == mapping.output_reference
    &&& mapping.flags % 2 == 1 ==> step.id == mapping.output_base
    &&& mapping.flags % 2 == 0 ==> step.id == mapping.output_base + (id - mapping.input_base)
}

/// The identifier is the last one of a mapping of more than one identifier.
pub open spec fn at_end(mapping: IortIdMapping, id: u32) -> bool {
    &&& mapping.id_count > 0
    &&& id == mapping.input_base + mapping.id_count || (id == 0xffff_ffff && mapping.input_base
        + mapping.id_count > 0xffff_ffff)
}

proof fn lemma_translate(mapping: IortIdMapping, kind: IortNodeKind, id: u32)
    ensures
        mapping.spec_translate(kind, id) is Some == applies(mapping, kind, id),
        mapping.spec_translate(kind, id) matches Some(to) ==> leads(
            mapping,
            id,
            IortSingleStepTranslation { id: to, output_reference: mapping.output_reference },
        ),
        (mapping.id_count > 0 && id == super::iort::last_id(mapping)) == at_end(mapping, id),
{
}

/// A mapping leads each identifier that it applies to where its output base
/// says, and no other.
pub proof fn law_mapping_translates_what_it_applies_to(
    mapping: IortIdMapping,
    kind: IortNodeKind,
    id: u32,
)
    ensures
        match mapping.spec_translate(kind, id) {
            Some(to) => applies(mapping, kind, id) && to == (if mapping.flags % 2 == 1 {
                mapping.output_base as int
            } else {
                mapping.output_base + (id - mapping.input_base)
            }),
            None => !applies(mapping, kind, id),
        },
{
}

/// A mapping that does not apply to the identifier changes nothing, wherever it
/// stands in the list.
pub proof fn law_mapping_that_does_not_apply_changes_nothing(
    front: Seq<IortIdMapping>,
    mapping: IortIdMapping,
    back: Seq<IortIdMapping>,
    kind: IortNodeKind,
    id: u32,
    fallback: Option<IortSingleStepTranslation>,
)
    requires
        !applies(mapping, kind, id),
    ensures
        super::iort::translate_from(
            Walk { items: front + seq![mapping] + back, error: None },
            kind,
            id,
            fallback,
        ) == super::iort::translate_from(
            Walk { items: front + back, error: None },
            kind,
            id,
            fallback,
        ),
    decreases front.len(),
{
    let with = Walk::<IortIdMapping, IortError> {
        items: front + seq![mapping] + back,
        error: None,
    };
    let without = Walk::<IortIdMapping, IortError> { items: front + back, error: None };
    if front.len() == 0 {
        assert(with.items[0] == mapping);
        assert(with.rest().items =~= without.items);
        lemma_translate(mapping, kind, id);
    } else {
        let first = front[0];
        let rest = front.drop_first();
        assert(with.items[0] == first && without.items[0] == first);
        assert(with.rest().items =~= rest + seq![mapping] + back);
        assert(without.rest().items =~= rest + back);
        law_mapping_that_does_not_apply_changes_nothing(rest, mapping, back, kind, id, fallback);
        let step = IortSingleStepTranslation {
            id: first.spec_translate(kind, id)->0,
            output_reference: first.output_reference,
        };
        law_mapping_that_does_not_apply_changes_nothing(rest, mapping, back, kind, id, Some(step));
    }
}

#[verifier::rlimit(40)]
proof fn lemma_translate_from(
    items: Seq<IortIdMapping>,
    kind: IortNodeKind,
    id: u32,
    fallback: Option<IortSingleStepTranslation>,
)
    ensures
        ({
            let r = super::iort::translate_from(
                Walk { items, error: None },
                kind,
                id,
                fallback,
            );
            &&& r is Ok
            &&& (forall|i: int| 0 <= i < items.len() ==> !applies(#[trigger] items[i], kind, id))
                ==> r->Ok_0 == fallback
            &&& (exists|i: int| 0 <= i < items.len() && applies(#[trigger] items[i], kind, id))
                ==> r->Ok_0 is Some
            &&& forall|k: int|
                0 <= k < items.len() && #[trigger] chosen(items, kind, id, k) ==> (r
                    matches Ok(Some(step)) && leads(items[k], id, step))
        }),
    decreases items.len(),
{
    let walk = Walk::<IortIdMapping, IortError> { items, error: None };
    let r = super::iort::translate_from(walk, kind, id, fallback);
    if items.len() > 0 {
        let first = items[0];
        let rest = items.drop_first();
        assert(walk.rest().items =~= rest);
        assert(walk.rest() == Walk::<IortIdMapping, IortError> { items: rest, error: None });
        lemma_translate(first, kind, id);
        assert(forall|i: int| 0 <= i < rest.len() ==> #[trigger] rest[i] == items[i + 1]);
        let step = IortSingleStepTranslation {
            id: first.spec_translate(kind, id)->0,
            output_reference: first.output_reference,
        };
        let next = if applies(first, kind, id) {
            Some(step)
        } else {
            fallback
        };
        lemma_translate_from(rest, kind, id, next);
        if applies(first, kind, id) && !at_end(first, id) {
            assert forall|k: int|
                0 <= k < items.len() && #[trigger] chosen(items, kind, id, k) implies (r matches
                Ok(Some(step)) && leads(items[k], id, step)) by {
                if k > 0 {
                    assert(preferred(items[0], kind, id));
                }
            }
        } else {
            assert(r == super::iort::translate_from(walk.rest(), kind, id, next));
            assert forall|k: int|
                0 <= k < items.len() && #[trigger] chosen(items, kind, id, k) implies (r matches
                Ok(Some(step)) && leads(items[k], id, step)) by {
                if k > 0 {
                    assert(chosen(rest, kind, id, k - 1)) by {
                        assert forall|m: int| 0 <= m < k - 1 implies !preferred(
                            #[trigger] rest[m],
                            kind,
                            id,
                        ) by {
                            assert(!preferred(items[m + 1], kind, id));
                        }
                        if at_end(items[k], id) {
                            assert forall|m: int| 0 <= m < rest.len() implies !preferred(
                                #[trigger] rest[m],
                                kind,
                                id,
                            ) && (m > k - 1 ==> !applies(rest[m], kind, id)) by {
                                assert(!preferred(items[m + 1], kind, id));
                                assert(m + 1 > k ==> !applies(items[m + 1], kind, id));
                            }
                        }
                    }
                } else {
                    assert forall|m: int| 0 <= m < rest.len() implies !applies(
                        #[trigger] rest[m],
                        kind,
                        id,
                    ) by {
                        assert(!applies(items[m + 1], kind, id));
                    }
                }
            }
            if forall|i: int| 0 <= i < items.len() ==> !applies(#[trigger] items[i], kind, id) {
                assert forall|m: int| 0 <= m < rest.len() implies !applies(
                    #[trigger] rest[m],
                    kind,
                    id,
                ) by {
                    assert(!applies(items[m + 1], kind, id));
                }
            }
            if exists|i: int| 0 <= i < items.len() && applies(#[trigger] items[i], kind, id) {
                let i = choose|i: int| 0 <= i < items.len() && applies(#[trigger] items[i], kind, id);
                if i > 0 {
                    assert(applies(rest[i - 1], kind, id));
                } else {
                    assert(next is Some);
                    if exists|m: int| 0 <= m < rest.len() && applies(#[trigger] rest[m], kind, id) {
                    } else {
                        assert(r->Ok_0 == next);
                    }
                }
            }
        }
    }
}

/// A mapping applies, and not just by its last identifier.
pub open spec fn preferred(mapping: IortIdMapping, kind: IortNodeKind, id: u32) -> bool {
    applies(mapping, kind, id) && !at_end(mapping, id)
}

/// Mapping `k` of a list is the one that an identifier follows: the first one
/// that applies by more than its last identifier, or, where there is none, the
/// last one that applies.
pub open spec fn chosen(items: Seq<IortIdMapping>, kind: IortNodeKind, id: u32, k: int) -> bool {
    &&& applies(items[k], kind, id)
    &&& forall|m: int| 0 <= m < k ==> !preferred(#[trigger] items[m], kind, id)
    &&& at_end(items[k], id) ==> forall|m: int|
        0 <= m < items.len() ==> !preferred(#[trigger] items[m], kind, id) && (m > k ==> !applies(
            items[m],
            kind,
            id,
        ))
}

/// Where some mapping of a list applies, there is one that is followed.
proof fn lemma_some_chosen(items: Seq<IortIdMapping>, kind: IortNodeKind, id: u32, i: int) -> (k:
    int)
    requires
        0 <= i < items.len(),
        applies(items[i], kind, id),
    ensures
        0 <= k < items.len(),
        chosen(items, kind, id, k),
{
    if exists|m: int| 0 <= m < items.len() && preferred(#[trigger] items[m], kind, id) {
        let m = choose|m: int| 0 <= m < items.len() && preferred(#[trigger] items[m], kind, id);
        lemma_first_preferred(items, kind, id, m)
    } else {
        lemma_last_applying(items, kind, id, i, items.len() as int)
    }
}

proof fn lemma_first_preferred(items: Seq<IortIdMapping>, kind: IortNodeKind, id: u32, m: int)
    -> (k: int)
    requires
        0 <= m < items.len(),
        preferred(items[m], kind, id),
    ensures
        0 <= k < items.len(),
        chosen(items, kind, id, k),
    decreases m,
{
    if exists|n: int| 0 <= n < m && preferred(#[trigger] items[n], kind, id) {
        let n = choose|n: int| 0 <= n < m && preferred(#[trigger] items[n], kind, id);
        lemma_first_preferred(items, kind, id, n)
    } else {
        m
    }
}

proof fn lemma_last_applying(
    items: Seq<IortIdMapping>,
    kind: IortNodeKind,
    id: u32,
    i: int,
    end: int,
) -> (k: int)
    requires
        0 <= i < end <= items.len(),
        applies(items[i], kind, id),
        forall|m: int| 0 <= m < items.len() ==> !preferred(#[trigger] items[m], kind, id),
        forall|m: int| end <= m < items.len() ==> !applies(#[trigger] items[m], kind, id),
    ensures
        0 <= k < items.len(),
        chosen(items, kind, id, k),
    decreases end,
{
    if applies(items[end - 1], kind, id) {
        end - 1
    } else {
        lemma_last_applying(items, kind, id, i, end - 1)
    }
}

/// An identifier goes on exactly where some mapping of the list applies to it,
/// wherever the mapping stands, and then where one of the mappings that apply
/// leads it: the first that applies by more than its last identifier, else the
/// last.
pub proof fn law_one_step_follows_a_mapping_that_applies(
    items: Seq<IortIdMapping>,
    kind: IortNodeKind,
    id: u32,
)
    ensures
        ({
            let r = super::iort::translate_from(Walk { items, error: None }, kind, id, None);
            &&& r is Ok
            &&& r->Ok_0 is Some <==> exists|i: int|
                0 <= i < items.len() && applies(#[trigger] items[i], kind, id)
            &&& r->Ok_0 matches Some(step) ==> exists|i: int|
                0 <= i < items.len() && applies(#[trigger] items[i], kind, id) && leads(
                    items[i],
                    id,
                    step,
                )
            &&& forall|k: int|
                0 <= k < items.len() && #[trigger] chosen(items, kind, id, k) ==> (r->Ok_0
                    matches Some(step) && leads(items[k], id, step))
        }),
{
    lemma_translate_from(items, kind, id, None);
    if exists|i: int| 0 <= i < items.len() && applies(#[trigger] items[i], kind, id) {
        let i = choose|i: int| 0 <= i < items.len() && applies(#[trigger] items[i], kind, id);
        let k = lemma_some_chosen(items, kind, id, i);
        assert(chosen(items, kind, id, k));
        assert(applies(items[k], kind, id));
    }
}

/// What was read is what the twenty bytes of the mapping at `at` say.
pub open spec fn mapping_reads(s: Seq<u8>, at: int, mapping: IortIdMapping) -> bool {
    &&& mapping.input_base == bytes::le32(s, at)
    &&& mapping.id_count == bytes::le32(s, at + 4)
    &&& mapping.output_base == bytes::le32(s, at + 8)
    &&& mapping.output_reference == bytes::le32(s, at + 12)
    &&& mapping.flags == bytes::le32(s, at + 16)
}

proof fn lemma_mappings_from(s: Seq<u8>, at: int, count: int)
    requires
        0 <= count,
        count > 0 ==> at + 20 * count <= s.len(),
    ensures
        ({
            let walk = super::iort::mappings_from(s, at, count);
            &&& walk.error is None
            &&& walk.items.len() == count
            &&& forall|i: int| 0 <= i < count ==> mapping_reads(s, at + 20 * i, #[trigger] walk.items[i])
        }),
    decreases count,
{
    if count > 0 {
        lemma_mappings_from(s, at + 20, count - 1);
        let walk = super::iort::mappings_from(s, at, count);
        let rest = super::iort::mappings_from(s, at + 20, count - 1);
        let first = super::iort::mapping_at(s, at)->Ok_0;
        Walk::lemma_cons(first, rest);
        assert(walk == Walk::cons(first, rest));
        assert forall|i: int| 0 <= i < count implies mapping_reads(
            s,
            at + 20 * i,
            #[trigger] walk.items[i],
        ) by {
            if i > 0 {
                assert(walk.items[i] == rest.items[i - 1]);
                assert(at + 20 * i == at + 20 + 20 * (i - 1));
            }
        }
    }
}

/// The mappings of a node are read in order, twenty bytes each, from where its
/// header says; and refused where they do not lie between the header and the
/// end of the node.
pub proof fn law_mappings_are_read_where_the_header_says(s: Seq<u8>, header: IortNodeHeader)
    requires
        header.offset + header.length <= s.len() <= usize::MAX,
    ensures
        ({
            let walk = super::iort::mappings_of(s, header);
            let start = header.offset + header.mapping_offset;
            &&& walk.error is None <==> header.mapping_count == 0 || (header.mapping_offset >= 16
                && header.mapping_offset + 20 * header.mapping_count <= header.length)
            &&& walk.error is None ==> {
                &&& walk.items.len() == header.mapping_count
                &&& forall|i: int|
                    0 <= i < walk.items.len() ==> mapping_reads(
                        s,
                        start + 20 * i,
                        #[trigger] walk.items[i],
                    )
            }
        }),
{
    let start = header.offset + header.mapping_offset;
    assert(header.mapping_count * 20 == 20 * header.mapping_count);
    if header.mapping_count == 0 {
        lemma_mappings_from(s, header.offset + header.length, 0);
    } else if super::iort::id_mapping_array(header) is Ok {
        lemma_mappings_from(s, start, header.mapping_count as int);
    }
}

/// The node that starts at `starts[i]` is followed by the next one, where the
/// length in its bytes `[1..3]` ends.
pub open spec fn node_follows(s: Seq<u8>, starts: Seq<int>, i: int) -> bool {
    &&& bytes::le16(s, starts[i] + 1) >= 16
    &&& starts[i + 1] == starts[i] + bytes::le16(s, starts[i] + 1)
}

/// These are the places where the nodes of a table start, and where the last
/// one ends: as many as bytes `[36..40]` say, from the offset in bytes
/// `[40..44]` on, which is behind the fixed header of 48 bytes.
pub open spec fn node_starts(s: Seq<u8>, starts: Seq<int>) -> bool {
    &&& starts.len() == bytes::le32(s, 36) + 1
    &&& starts[0] == bytes::le32(s, 40)
    &&& starts[0] >= 48
    &&& starts.last() <= s.len()
    &&& forall|i: int| 0 <= i < starts.len() - 1 ==> #[trigger] node_follows(s, starts, i)
}

/// Where the name of the component at `at` ends: at its mappings, or at its end
/// where it has none.
pub open spec fn name_end(s: Seq<u8>, at: int) -> int {
    at + (if bytes::le32(s, at + 8) == 0 {
        bytes::le16(s, at + 1) as int
    } else {
        bytes::le32(s, at + 12) as int
    })
}

/// The node at `at` is long enough for its kind, and the addresses in it can be
/// used.
pub open spec fn node_sound(s: Seq<u8>, at: int) -> bool {
    let kind = s[at];
    let length = bytes::le16(s, at + 1) as int;
    let base = bytes::le64(s, at + 16);
    let second = bytes::le64(s, at + 32);
    &&& kind == 0 ==> length >= 20
    &&& kind == 1 ==> length >= 29 && at + 29 <= name_end(s, at) <= at + length
    &&& kind == 2 ==> length >= 35
    &&& kind == 3 ==> length >= 60 && bytes::le64(s, at + 24) > 0 && base + bytes::le64(s, at + 24)
        <= usize::MAX
    &&& kind == 4 ==> length >= 68 && base <= usize::MAX && second <= usize::MAX
    &&& kind == 5 ==> length >= 40 && base <= usize::MAX && second <= usize::MAX
    &&& kind == 6 ==> length >= 28
}

/// What was read is what the bytes of the header at `at` say.
pub open spec fn header_reads(s: Seq<u8>, at: int, header: IortNodeHeader) -> bool {
    &&& header.kind == (if s[at] == 0 {
        IortNodeKind::ItsGroup
    } else if s[at] == 1 {
        IortNodeKind::NamedComponent
    } else if s[at] == 2 {
        IortNodeKind::RootComplex
    } else if s[at] == 3 {
        IortNodeKind::Smmu
    } else if s[at] == 4 {
        IortNodeKind::SmmuV3
    } else if s[at] == 5 {
        IortNodeKind::Pmcg
    } else if s[at] == 6 {
        IortNodeKind::ReservedMemory
    } else {
        IortNodeKind::Unknown(s[at])
    })
    &&& header.length == bytes::le16(s, at + 1)
    &&& header.revision == s[at + 3]
    &&& header.identifier == bytes::le32(s, at + 4)
    &&& header.mapping_count == bytes::le32(s, at + 8)
    &&& header.mapping_offset == bytes::le32(s, at + 12)
    &&& header.offset == at
}

/// What was read is what the bytes of the node at `at` say.
pub open spec fn node_reads(s: Seq<u8>, at: int, node: Node) -> bool {
    &&& header_reads(s, at, node.spec_header())
    &&& match node {
        Node::ItsGroup(group) => s[at] == 0 && group.its_count == bytes::le32(s, at + 16),
        Node::NamedComponent {
            node_flags,
            memory_properties,
            memory_address_limit,
            device_name,
            ..
        } => {
            &&& s[at] == 1
            &&& node_flags == bytes::le32(s, at + 16)
            &&& memory_properties.cache_coherency == bytes::le32(s, at + 20)
            &&& memory_properties.hints == s[at + 24]
            &&& memory_properties.memory_flags == s[at + 27]
            &&& memory_address_limit == s[at + 28]
            &&& device_name == s.subrange(at + 29, name_end(s, at))
        },
        Node::RootComplex(root) => {
            &&& s[at] == 2
            &&& root.memory_properties.cache_coherency == bytes::le32(s, at + 16)
            &&& root.memory_properties.hints == s[at + 20]
            &&& root.memory_properties.memory_flags == s[at + 23]
            &&& root.ats_attribute == bytes::le32(s, at + 24)
            &&& root.pci_segment_number == bytes::le32(s, at + 28)
            &&& root.memory_address_limit == s[at + 32]
            &&& root.pasid_capabilities == bytes::le16(s, at + 33)
        },
        Node::Smmu(unit) => {
            &&& s[at] == 3
            &&& unit.registers.start.value() == bytes::le64(s, at + 16)
            &&& unit.registers.end.value() == bytes::le64(s, at + 16) + bytes::le64(s, at + 24)
            &&& unit.model == bytes::le32(s, at + 32)
            &&& unit.flags == bytes::le32(s, at + 36)
            &&& unit.global_interrupt_offset == bytes::le32(s, at + 40)
            &&& unit.context_interrupt_count == bytes::le32(s, at + 44)
            &&& unit.context_interrupt_offset == bytes::le32(s, at + 48)
            &&& unit.pmu_interrupt_count == bytes::le32(s, at + 52)
            &&& unit.pmu_interrupt_offset == bytes::le32(s, at + 56)
        },
        Node::SmmuV3(unit) => {
            &&& s[at] == 4
            &&& unit.base_address.value() == bytes::le64(s, at + 16)
            &&& unit.flags == bytes::le32(s, at + 24)
            &&& unit.vatos_address is Some == (bytes::le64(s, at + 32) != 0)
            &&& unit.vatos_address matches Some(address) ==> address.value() == bytes::le64(
                s,
                at + 32,
            )
            &&& unit.model == bytes::le32(s, at + 40)
            &&& unit.event_gsiv == bytes::le32(s, at + 44)
            &&& unit.pri_gsiv == bytes::le32(s, at + 48)
            &&& unit.gerr_gsiv == bytes::le32(s, at + 52)
            &&& unit.sync_gsiv == bytes::le32(s, at + 56)
            &&& unit.pxm == bytes::le32(s, at + 60)
            &&& unit.id_mapping_index == bytes::le32(s, at + 64)
        },
        Node::Pmcg(unit) => {
            &&& s[at] == 5
            &&& unit.page0_base_address.value() == bytes::le64(s, at + 16)
            &&& unit.overflow_gsiv == bytes::le32(s, at + 24)
            &&& unit.node_reference == bytes::le32(s, at + 28)
            &&& unit.page1_base_address is Some == (bytes::le64(s, at + 32) != 0)
            &&& unit.page1_base_address matches Some(address) ==> address.value() == bytes::le64(
                s,
                at + 32,
            )
        },
        Node::ReservedMemory(memory) => {
            &&& s[at] == 6
            &&& memory.flags == bytes::le32(s, at + 16)
            &&& memory.descriptor_count == bytes::le32(s, at + 20)
            &&& memory.descriptor_offset == bytes::le32(s, at + 24)
        },
        Node::Unknown(other) => s[at] > 6 && other.kind == s[at],
    }
}

/// What was read of the node at `at` is what its bytes say, or it is not sound.
spec fn content_agrees(s: Seq<u8>, at: int) -> bool {
    match super::iort::node_content(s, at, bytes::le16(s, at + 1) as int) {
        Ok(node) => node_sound(s, at) && node_reads(s, at, node),
        Err(_) => !node_sound(s, at),
    }
}

/// The same of the nodes that hold no addresses.
#[verifier::spinoff_prover]
#[verifier::rlimit(60)]
proof fn lemma_plain_node(s: Seq<u8>, at: int)
    requires
        0 <= at,
        at + 3 <= s.len(),
        at + bytes::le16(s, at + 1) <= s.len() <= usize::MAX,
        s[at] < 3 || s[at] > 5,
    ensures
        content_agrees(s, at),
{
}

/// The same of an SMMU.
#[verifier::spinoff_prover]
#[verifier::rlimit(60)]
proof fn lemma_smmu_node(s: Seq<u8>, at: int)
    requires
        0 <= at,
        at + 3 <= s.len(),
        at + bytes::le16(s, at + 1) <= s.len() <= usize::MAX,
        s[at] == 3,
    ensures
        content_agrees(s, at),
{
    let base = bytes::le64(s, at + 16);
    let size = bytes::le64(s, at + 24);
    if base + size <= usize::MAX {
        crate::addr::law_mmio_window_bounds(base as usize, size as int);
    }
}

/// The same of an SMMUv3 and of a counter group.
#[verifier::spinoff_prover]
#[verifier::rlimit(60)]
proof fn lemma_addressed_node(s: Seq<u8>, at: int)
    requires
        0 <= at,
        at + 3 <= s.len(),
        at + bytes::le16(s, at + 1) <= s.len() <= usize::MAX,
        s[at] == 4 || s[at] == 5,
    ensures
        content_agrees(s, at),
{
    let base = bytes::le64(s, at + 16);
    let second = bytes::le64(s, at + 32);
    if base <= usize::MAX {
        crate::addr::law_mmio_window_bounds(base as usize, 0);
    }
    if second <= usize::MAX {
        crate::addr::law_mmio_window_bounds(second as usize, 0);
    }
}

/// What the node at `at` holds is read from its own bytes, and it is refused
/// exactly where it is not sound.
proof fn lemma_node_content(s: Seq<u8>, at: int)
    requires
        0 <= at,
        at + 3 <= s.len(),
        at + bytes::le16(s, at + 1) <= s.len() <= usize::MAX,
    ensures
        content_agrees(s, at),
{
    if s[at] == 3 {
        lemma_smmu_node(s, at);
    } else if s[at] == 4 || s[at] == 5 {
        lemma_addressed_node(s, at);
    } else {
        lemma_plain_node(s, at);
    }
}

proof fn lemma_node_bounds(s: Seq<u8>, starts: Seq<int>, i: int)
    requires
        node_starts(s, starts),
        0 <= i < starts.len(),
    ensures
        starts[i] <= s.len(),
    decreases starts.len() - i,
{
    if i < starts.len() - 1 {
        assert(node_follows(s, starts, i));
        lemma_node_bounds(s, starts, i + 1);
    }
}

/// Nodes start one behind the other.
proof fn lemma_node_order(s: Seq<u8>, starts: Seq<int>, i: int, j: int)
    requires
        node_starts(s, starts),
        0 <= i <= j < starts.len(),
    ensures
        48 <= starts[0] <= starts[i] <= starts[j],
        i < j ==> starts[i] + 16 <= starts[j],
    decreases j,
{
    if j > 0 {
        assert(node_follows(s, starts, j - 1));
        if i < j {
            lemma_node_order(s, starts, i, j - 1);
        } else {
            lemma_node_order(s, starts, i - 1, j - 1);
        }
    }
}

/// Item `j` is read from the node `j` places behind the `i`th.
spec fn sound_at(s: Seq<u8>, starts: Seq<int>, i: int, items: Seq<Node>, j: int) -> bool {
    node_sound(s, starts[i + j]) && node_reads(s, starts[i + j], items[j])
}

/// Reading the nodes from the `i`th on takes that one first.
#[verifier::spinoff_prover]
#[verifier::rlimit(60)]
proof fn lemma_node_step(s: Seq<u8>, starts: Seq<int>, i: int)
    requires
        node_starts(s, starts),
        s.len() <= usize::MAX,
        0 <= i < starts.len() - 1,
    ensures
        ({
            let walk = super::iort::nodes_from(s, starts[i], starts.len() - 1 - i);
            if node_sound(s, starts[i]) {
                &&& walk.items.len() > 0
                &&& node_reads(s, starts[i], walk.items[0])
                &&& walk.rest() == super::iort::nodes_from(s, starts[i + 1], starts.len() - 2 - i)
            } else {
                walk.items.len() == 0 && walk.error is Some
            }
        }),
{
    let left = starts.len() - 1 - i;
    assert(node_follows(s, starts, i));
    lemma_node_bounds(s, starts, i + 1);
    lemma_node_order(s, starts, 0, i);
    let at = starts[i];
    let length = bytes::le16(s, at + 1) as int;
    assert(super::iort::node_bounds_fault(s, at) is None);
    lemma_node_content(s, at);
    let content = super::iort::node_content(s, at, length);
    let rest = super::iort::nodes_from(s, at + length, left - 1);
    lemma_first_node(s, at, left);
    if content is Ok {
        Walk::lemma_cons(content->Ok_0, rest);
    }
}

/// The first of some nodes with good bounds.
#[verifier::rlimit(40)]
proof fn lemma_first_node(s: Seq<u8>, at: int, count: int)
    requires
        count > 0,
        super::iort::node_bounds_fault(s, at) is None,
    ensures
        ({
            let length = bytes::le16(s, at + 1) as int;
            super::iort::nodes_from(s, at, count) == (match super::iort::node_content(
                s,
                at,
                length,
            ) {
                Ok(node) => Walk::cons(node, super::iort::nodes_from(s, at + length, count - 1)),
                Err(error) => Walk::fail(error),
            })
        }),
{
}

/// The nodes from the `i`th on.
#[verifier::spinoff_prover]
#[verifier::rlimit(60)]
proof fn lemma_nodes_from(s: Seq<u8>, starts: Seq<int>, i: int)
    requires
        node_starts(s, starts),
        s.len() <= usize::MAX,
        0 <= i < starts.len(),
    ensures
        ({
            let walk = super::iort::nodes_from(s, starts[i], starts.len() - 1 - i);
            let left = starts.len() - 1 - i;
            &&& walk.items.len() <= left
            &&& forall|j: int|
                0 <= j < walk.items.len() ==> #[trigger] sound_at(s, starts, i, walk.items, j)
            &&& walk.error is None ==> walk.items.len() == left
            &&& walk.error is Some ==> walk.items.len() < left && !node_sound(
                s,
                starts[i + walk.items.len()],
            )
        }),
    decreases starts.len() - i,
{
    let left = starts.len() - 1 - i;
    let walk = super::iort::nodes_from(s, starts[i], left);
    if i < starts.len() - 1 {
        lemma_node_step(s, starts, i);
        lemma_nodes_from(s, starts, i + 1);
        let rest = super::iort::nodes_from(s, starts[i + 1], left - 1);
        if node_sound(s, starts[i]) {
            assert(walk.rest() == rest);
            assert(walk.items.len() == rest.items.len() + 1);
            assert(walk.error == rest.error);
            assert forall|j: int| 0 <= j < walk.items.len() implies #[trigger] sound_at(
                s,
                starts,
                i,
                walk.items,
                j,
            ) by {
                if j > 0 {
                    assert(walk.rest().items[j - 1] == walk.items[j]);
                    assert(sound_at(s, starts, i + 1, rest.items, j - 1));
                    assert(starts[i + 1 + (j - 1)] == starts[i + j]);
                }
            }
            if walk.error is Some {
                assert(starts[i + 1 + rest.items.len()] == starts[i + walk.items.len()]);
            }
        }
    }
}

/// Every node of a table is read, in order, from its own bytes; and the table
/// is refused exactly where one of its nodes is not sound.
#[verifier::rlimit(40)]
pub proof fn law_nodes_are_read_where_they_start(s: Seq<u8>, starts: Seq<int>)
    requires
        node_starts(s, starts),
        s.len() <= usize::MAX,
    ensures
        ({
            let walk = super::iort::nodes_of(s);
            &&& walk.items.len() <= starts.len() - 1
            &&& forall|i: int|
                0 <= i < walk.items.len() ==> node_reads(s, starts[i], #[trigger] walk.items[i])
            &&& walk.error is None <==> forall|i: int|
                0 <= i < starts.len() - 1 ==> node_sound(s, #[trigger] starts[i])
            &&& walk.error is None ==> walk.items.len() == starts.len() - 1
        }),
{
    lemma_nodes_from(s, starts, 0);
    lemma_node_bounds(s, starts, 0);
    let walk = super::iort::nodes_of(s);
    assert(walk == super::iort::nodes_from(s, starts[0], starts.len() - 1));
    assert forall|i: int| 0 <= i < walk.items.len() implies node_reads(
        s,
        starts[i],
        #[trigger] walk.items[i],
    ) by {
        assert(sound_at(s, starts, 0, walk.items, i));
    }
    if walk.error is None {
        assert forall|i: int| 0 <= i < starts.len() - 1 implies node_sound(
            s,
            #[trigger] starts[i],
        ) by {
            assert(sound_at(s, starts, 0, walk.items, i));
        }
    } else {
        let k = walk.items.len() as int;
        assert(!node_sound(s, starts[k]));
    }
}

/// The places of a table that is read to its end.
pub open spec fn laid_out(s: Seq<u8>, starts: Seq<int>) -> bool {
    &&& s.len() <= usize::MAX
    &&& node_starts(s, starts)
    &&& forall|i: int| 0 <= i < starts.len() - 1 ==> node_sound(s, #[trigger] starts[i])
}

proof fn lemma_find_from(walk: Walk<Node, IortError>, offset: int, k: int)
    requires
        walk.error is None,
        0 <= k <= walk.items.len(),
        forall|i: int| 0 <= i < k ==> (#[trigger] walk.items[i]).spec_header().offset != offset,
        k < walk.items.len() ==> walk.items[k].spec_header().offset == offset,
    ensures
        super::iort::find_from(walk, offset) == Ok::<Option<Node>, IortError>(
            if k < walk.items.len() {
                Some(walk.items[k])
            } else {
                None
            },
        ),
    decreases k,
{
    if k > 0 {
        let rest = walk.rest();
        assert(walk.items[0].spec_header().offset != offset);
        assert forall|i: int| 0 <= i < k - 1 implies (
        #[trigger] rest.items[i]).spec_header().offset != offset by {
            assert(rest.items[i] == walk.items[i + 1]);
        }
        lemma_find_from(rest, offset, k - 1);
    }
}

/// A reference stands for the node that starts there, and for none where no
/// node does.
#[verifier::rlimit(40)]
pub proof fn law_reference_stands_for_the_node_that_starts_there(
    s: Seq<u8>,
    starts: Seq<int>,
    reference: u32,
)
    requires
        laid_out(s, starts),
    ensures
        ({
            let r = super::iort::spec_node_by_reference(s, reference);
            &&& r is Ok
            &&& r->Ok_0 matches Some(node) ==> node_reads(s, reference as int, node)
            &&& r->Ok_0 is Some <==> exists|k: int|
                0 <= k < starts.len() - 1 && #[trigger] starts[k] == reference
        }),
{
    law_nodes_are_read_where_they_start(s, starts);
    let walk = super::iort::nodes_of(s);
    assert forall|i: int| 0 <= i < walk.items.len() implies (
    #[trigger] walk.items[i]).spec_header().offset == starts[i] by {
        assert(node_reads(s, starts[i], walk.items[i]));
    }
    if exists|k: int| 0 <= k < starts.len() - 1 && #[trigger] starts[k] == reference {
        let k = choose|k: int| 0 <= k < starts.len() - 1 && #[trigger] starts[k] == reference;
        assert(node_follows(s, starts, k));
        lemma_node_order(s, starts, 0, k);
        lemma_node_bounds(s, starts, k + 1);
        assert forall|i: int| 0 <= i < k implies (
        #[trigger] walk.items[i]).spec_header().offset != reference as int by {
            lemma_node_order(s, starts, i, k);
        }
        assert(walk.items[k].spec_header().offset == reference);
        lemma_find_from(walk, reference as int, k);
    } else {
        assert forall|i: int| 0 <= i < walk.items.len() implies (
        #[trigger] walk.items[i]).spec_header().offset != reference as int by {
            assert(starts[i] != reference);
        }
        lemma_find_from(walk, reference as int, walk.items.len() as int);
    }
}

/// The root complex of a segment is the last node of its kind with the segment
/// in its bytes `[28..32]`, and there is none where no such node is.
pub proof fn law_last_root_complex_of_a_segment_is_its(
    s: Seq<u8>,
    starts: Seq<int>,
    segment: u16,
    k: int,
)
    requires
        laid_out(s, starts),
        0 <= k < starts.len(),
        forall|i: int|
            k <= i < starts.len() - 1 ==> !(s[#[trigger] starts[i]] == 2 && bytes::le32(
                s,
                starts[i] + 28,
            ) == segment),
    ensures
        ({
            let r = super::iort::spec_root_complex(s, segment);
            &&& k == 0 ==> r == Ok::<Option<IortRootComplex>, IortError>(None)
            &&& k > 0 && s[starts[k - 1]] == 2 && bytes::le32(s, starts[k - 1] + 28) == segment
                ==> (r matches Ok(Some(root)) && node_reads(
                s,
                starts[k - 1],
                Node::RootComplex(root),
            ))
        }),
{
    law_nodes_are_read_where_they_start(s, starts);
    let items = super::iort::nodes_of(s).items;
    let pick = super::iort::as_root_complex(segment);
    assert forall|i: int| 0 <= i < items.len() implies {
        &&& pick(#[trigger] items[i]) is Some <==> s[starts[i]] == 2 && bytes::le32(
            s,
            starts[i] + 28,
        ) == segment
        &&& pick(items[i]) matches Some(root) ==> items[i] == Node::RootComplex(root)
    } by {
        assert(node_reads(s, starts[i], items[i]));
    }
    crate::walk::law_last_find_stands_furthest_behind(items, pick, k);
    if k > 0 {
        assert(node_reads(s, starts[k - 1], items[k - 1]));
    }
}

/// The mapping of a node leads an identifier to the next node.
pub open spec fn steps_to(s: Seq<u8>, node: Node, id: u32, next: Node, next_id: u32) -> bool {
    &&& super::iort::translate_from(
        super::iort::mappings_of(s, node.spec_header()),
        node.spec_header().kind,
        id,
        None,
    ) matches Ok(Some(step)) && {
        &&& step.id == next_id
        &&& super::iort::spec_node_by_reference(s, step.output_reference) == Ok::<
            Option<Node>,
            IortError,
        >(Some(next))
    }
}

/// The identifier goes no further from a node: no mapping applies to it, or the
/// one that does leads to no node.
pub open spec fn stops_at(s: Seq<u8>, node: Node, id: u32) -> bool {
    match super::iort::translate_from(
        super::iort::mappings_of(s, node.spec_header()),
        node.spec_header().kind,
        id,
        None,
    ) {
        Ok(None) => true,
        Ok(Some(step)) => super::iort::spec_node_by_reference(s, step.output_reference) == Ok::<
            Option<Node>,
            IortError,
        >(None),
        Err(_) => false,
    }
}

/// Along a path on which the mapping of each node leads to the next one, an
/// identifier is followed to the first node of the target kind and arrives with
/// the identifier that it has there. Where the path stops before that there is
/// no such node, and where it is longer than the number of steps it is refused.
#[verifier::rlimit(40)]
pub proof fn law_identifier_is_followed_along_its_path(
    s: Seq<u8>,
    path: Seq<Node>,
    ids: Seq<u32>,
    target: IortNodeKind,
    steps: int,
)
    requires
        path.len() > 0,
        ids.len() == path.len(),
        forall|i: int|
            0 <= i < path.len() - 1 ==> (#[trigger] path[i]).spec_header().kind != target
                && steps_to(s, path[i], ids[i], path[i + 1], ids[i + 1]),
    ensures
        ({
            let r = super::iort::map_from(s, path[0], ids[0], target, steps);
            &&& path.len() <= steps && path.last().spec_header().kind == target ==> r == Ok::<
                Option<(Node, u32)>,
                IortError,
            >(Some((path.last(), ids.last())))
            &&& path.len() <= steps && path.last().spec_header().kind != target && stops_at(
                s,
                path.last(),
                ids.last(),
            ) ==> r == Ok::<Option<(Node, u32)>, IortError>(None)
            &&& path.len() > steps ==> r is Err
        }),
    decreases path.len(),
{
    if path.len() > 1 {
        let rest = path.drop_first();
        let rest_ids = ids.drop_first();
        assert(path[0].spec_header().kind != target);
        assert(steps_to(s, path[0], ids[0], path[1], ids[1]));
        assert forall|i: int| 0 <= i < rest.len() - 1 implies (
        #[trigger] rest[i]).spec_header().kind != target && steps_to(
            s,
            rest[i],
            rest_ids[i],
            rest[i + 1],
            rest_ids[i + 1],
        ) by {
            assert(path[i + 1].spec_header().kind != target);
        }
        law_identifier_is_followed_along_its_path(s, rest, rest_ids, target, steps - 1);
        assert(rest.last() == path.last() && rest_ids.last() == ids.last());
    }
}

/// A PCI requester is followed from the root complex of its segment, with its
/// identity on the bus as identifier, over no more nodes than the table has;
/// without such a root complex there is nothing to follow.
pub proof fn law_requester_is_followed_from_its_root_complex(
    s: Seq<u8>,
    requester: PciDevice,
    target: IortNodeKind,
)
    ensures
        super::iort::map_requester(s, requester, target) == (match super::iort::spec_root_complex(
            s,
            (requester.0 / 0x1_0000) as u16,
        ) {
            Ok(Some(root)) => super::iort::map_from(
                s,
                Node::RootComplex(root),
                (requester.0 % 0x1_0000) as u32,
                target,
                bytes::le32(s, 36) as int,
            ),
            Ok(None) => Ok(None),
            Err(error) => Err(error),
        }),
{
}

/// The identifiers of a mapping are not all requesters.
pub open spec fn beyond_requesters(mapping: IortIdMapping) -> bool {
    mapping.flags % 2 == 0 && mapping.input_base + mapping.id_count > 0xffff
}

/// A mapping maps the requester `id`: it maps all of them, or its range holds
/// it and only requesters.
pub open spec fn maps_requester(mapping: IortIdMapping, id: int) -> bool {
    if mapping.flags % 2 == 1 {
        0 <= id <= 0xffff
    } else {
        &&& mapping.input_base + mapping.id_count <= 0xffff
        &&& mapping.input_base <= id <= mapping.input_base + mapping.id_count
    }
}

/// One of the mappings maps the requester `id`.
pub open spec fn some_maps_requester(items: Seq<IortIdMapping>, id: int) -> bool {
    exists|i: int| 0 <= i < items.len() && maps_requester(#[trigger] items[i], id)
}

/// The identifiers of one of the mappings are not all requesters.
pub open spec fn some_beyond_requesters(items: Seq<IortIdMapping>) -> bool {
    exists|i: int| 0 <= i < items.len() && beyond_requesters(#[trigger] items[i])
}

/// The requesters of a mapping are those that it maps, where its identifiers
/// are requesters.
proof fn lemma_input_range(mapping: IortIdMapping)
    ensures
        mapping.spec_input_bdf_range() is None == beyond_requesters(mapping),
        mapping.spec_input_bdf_range() matches Some(range) ==> {
            &&& range.wf()
            &&& range.lo() < range.hi()
            &&& forall|id: int| #[trigger] range.has(id) == maps_requester(mapping, id)
        },
{
    if mapping.flags % 2 == 1 {
        BdfRange::lemma_of_bounds(0, 0x1_0000);
    } else if mapping.input_base + mapping.id_count <= 0xffff {
        BdfRange::lemma_of_bounds(
            mapping.input_base as int,
            mapping.input_base + mapping.id_count + 1,
        );
    }
}

/// How the root complex of a requester's segment relates to the requester: it
/// covers it where one of its mappings maps it; else the matter is open where
/// the identifiers of a mapping are not all requesters.
pub proof fn law_requester_match_follows_the_mappings(
    s: Seq<u8>,
    requester: PciDevice,
    root: IortRootComplex,
)
    requires
        super::iort::spec_root_complex(s, (requester.0 / 0x1_0000) as u16) == Ok::<
            Option<IortRootComplex>,
            IortError,
        >(Some(root)),
        super::iort::mappings_of(s, root.header).error is None,
    ensures
        ({
            let items = super::iort::mappings_of(s, root.header).items;
            super::iort::spec_requester_match(s, requester) == Ok::<
                Option<IortRequesterMatch>,
                IortError,
            >(
                Some(
                    if some_maps_requester(items, (requester.0 % 0x1_0000) as int) {
                        IortRequesterMatch::Covered
                    } else if some_beyond_requesters(items) {
                        IortRequesterMatch::Unresolved
                    } else {
                        IortRequesterMatch::NotCovered
                    },
                ),
            )
        }),
{
    let items = super::iort::mappings_of(s, root.header).items;
    lemma_any_maps(items, requester.spec_bdf());
}

proof fn lemma_any_maps(items: Seq<IortIdMapping>, bdf: Bdf)
    ensures
        crate::walk::any(items, super::iort::mapping_has(bdf)) == some_maps_requester(
            items,
            bdf.0 as int,
        ),
        crate::walk::any(items, super::iort::mapping_unresolved()) == some_beyond_requesters(
            items,
        ),
{
    let has = super::iort::mapping_has(bdf);
    let unresolved = super::iort::mapping_unresolved();
    let id = bdf.0 as int;
    assert forall|i: int| 0 <= i < items.len() implies has(#[trigger] items[i]) == maps_requester(
        items[i],
        id,
    ) && unresolved(items[i]) == beyond_requesters(items[i]) by {
        lemma_input_range(items[i]);
    }
    if crate::walk::any(items, has) {
        let i = choose|i: int| 0 <= i < items.len() && has(#[trigger] items[i]);
        assert(maps_requester(items[i], id));
    }
    if some_maps_requester(items, id) {
        let i = choose|i: int| 0 <= i < items.len() && maps_requester(#[trigger] items[i], id);
        assert(has(items[i]));
    }
    if crate::walk::any(items, unresolved) {
        let i = choose|i: int| 0 <= i < items.len() && unresolved(#[trigger] items[i]);
        assert(beyond_requesters(items[i]));
    }
    if some_beyond_requesters(items) {
        let i = choose|i: int| 0 <= i < items.len() && beyond_requesters(#[trigger] items[i]);
        assert(unresolved(items[i]));
    }
}

/// Taking in the mappings of a list.
#[verifier::rlimit(40)]
proof fn lemma_scan_mappings(scan: RequesterScan, walk: Walk<IortIdMapping, IortError>)
    requires
        crate::firm::pcie::canonical(scan.runs),
        scan.runs.len() <= 16,
        walk.error is None,
    ensures
        match scan.mappings(walk) {
            Ok(after) => {
                &&& crate::firm::pcie::canonical(after.runs)
                &&& after.runs.len() <= 16
                &&& after.runs.len() <= scan.runs.len() + walk.items.len()
                &&& after.found == scan.found
                &&& after.unresolved == (scan.unresolved || some_beyond_requesters(walk.items))
                &&& forall|id: int| #[trigger]
                    crate::firm::pcie::covered(after.runs, id) == (crate::firm::pcie::covered(
                        scan.runs,
                        id,
                    ) || some_maps_requester(walk.items, id))
            },
            Err(error) => {
                &&& error == IortError::BdfRanges(BdfRangeSetError::Full)
                &&& scan.runs.len() + walk.items.len() > 16
            },
        },
    decreases walk.items.len(),
{
    if walk.items.len() > 0 {
        let first = walk.items[0];
        let rest = walk.rest();
        lemma_input_range(first);
        if first.spec_input_bdf_range() is Some {
            let range = first.spec_input_bdf_range()->0;
            crate::firm::pcie::law_adding_a_range_adds_its_identities(scan.runs, range, 16);
            crate::firm::pcie::law_a_range_finds_room_below_capacity(scan.runs, range, 16);
        }
        assert forall|id: int| #[trigger] some_maps_requester(walk.items, id) == (maps_requester(
            first,
            id,
        ) || some_maps_requester(rest.items, id)) by {
            if some_maps_requester(rest.items, id) {
                let i = choose|i: int|
                    0 <= i < rest.items.len() && maps_requester(#[trigger] rest.items[i], id);
                assert(maps_requester(walk.items[i + 1], id));
            }
            if some_maps_requester(walk.items, id) && !maps_requester(first, id) {
                let i = choose|i: int|
                    0 <= i < walk.items.len() && maps_requester(#[trigger] walk.items[i], id);
                assert(maps_requester(rest.items[i - 1], id));
            }
        }
        assert(some_beyond_requesters(walk.items) == (beyond_requesters(first)
            || some_beyond_requesters(rest.items))) by {
            if some_beyond_requesters(rest.items) {
                let i = choose|i: int|
                    0 <= i < rest.items.len() && beyond_requesters(#[trigger] rest.items[i]);
                assert(beyond_requesters(walk.items[i + 1]));
            }
            if some_beyond_requesters(walk.items) && !beyond_requesters(first) {
                let i = choose|i: int|
                    0 <= i < walk.items.len() && beyond_requesters(#[trigger] walk.items[i]);
                assert(beyond_requesters(rest.items[i - 1]));
            }
        }
        if scan.mapping(first) is Ok {
            let after = scan.mapping(first)->Ok_0;
            lemma_scan_mappings(after, rest);
            assert forall|id: int| #[trigger]
                crate::firm::pcie::covered(after.runs, id) == (crate::firm::pcie::covered(
                    scan.runs,
                    id,
                ) || maps_requester(first, id)) by {}
            if after.mappings(rest) is Ok {
                let done = after.mappings(rest)->Ok_0;
                assert forall|id: int| #[trigger]
                    crate::firm::pcie::covered(done.runs, id) == (crate::firm::pcie::covered(
                        scan.runs,
                        id,
                    ) || some_maps_requester(walk.items, id)) by {
                    assert(crate::firm::pcie::covered(after.runs, id) == (
                    crate::firm::pcie::covered(scan.runs, id) || maps_requester(first, id)));
                    assert(some_maps_requester(walk.items, id) == (maps_requester(first, id)
                        || some_maps_requester(rest.items, id)));
                }
            }
        }
    } else {
        assert(!some_beyond_requesters(walk.items));
        assert forall|id: int| !#[trigger] some_maps_requester(walk.items, id) by {}
    }
}

/// The requesters of a segment are those that the mappings of its root complex
/// map. There is a list of them where there is one at all, and sixteen mappings
/// always find room.
pub proof fn law_root_complex_ranges_follow_the_mappings(
    s: Seq<u8>,
    segment: u16,
    root: IortRootComplex,
)
    requires
        super::iort::spec_root_complex(s, segment) == Ok::<Option<IortRootComplex>, IortError>(
            Some(root),
        ),
        super::iort::mappings_of(s, root.header).error is None,
    ensures
        ({
            let items = super::iort::mappings_of(s, root.header).items;
            match super::iort::spec_root_complex_bdf_ranges(s, segment) {
                Ok(Some(runs)) => {
                    &&& crate::firm::pcie::canonical(runs)
                    &&& runs.len() > 0
                    &&& forall|id: int| #[trigger]
                        crate::firm::pcie::covered(runs, id) == some_maps_requester(items, id)
                },
                Ok(None) => forall|id: int| !#[trigger] some_maps_requester(items, id),
                Err(error) => {
                    &&& error == IortError::BdfRanges(BdfRangeSetError::Full)
                    &&& items.len() > 16
                },
            }
        }),
{
    let walk = super::iort::mappings_of(s, root.header);
    let start = RequesterScan::start();
    lemma_scan_mappings(start, walk);
    assert forall|id: int| !#[trigger] crate::firm::pcie::covered(start.runs, id) by {}
    if start.mappings(walk) is Ok {
        let runs = start.mappings(walk)->Ok_0.runs;
        if runs.len() == 0 {
            assert forall|id: int| !#[trigger] some_maps_requester(walk.items, id) by {
                assert(!crate::firm::pcie::covered(runs, id));
            }
        }
    }
}

/// Without a root complex of the segment there are no requesters, and no answer
/// for one.
pub proof fn law_segment_without_root_complex_has_no_requesters(s: Seq<u8>, requester: PciDevice)
    requires
        super::iort::spec_root_complex(s, (requester.0 / 0x1_0000) as u16) == Ok::<
            Option<IortRootComplex>,
            IortError,
        >(None),
    ensures
        super::iort::spec_requester_match(s, requester) == Ok::<
            Option<IortRequesterMatch>,
            IortError,
        >(None),
        super::iort::spec_root_complex_bdf_ranges(s, (requester.0 / 0x1_0000) as u16) == Ok::<
            Option<Seq<BdfRange>>,
            IortError,
        >(None),
{
}

/// A node reserves the memory: one of its descriptors has the same start and
/// end.
pub open spec fn reserves_memory(s: Seq<u8>, node: Node, memory: PhysAddrRange) -> bool {
    node matches Node::ReservedMemory(rmr) && exists|i: int|
        0 <= i < super::iort::descriptors_of(s, rmr).items.len() && (
        #[trigger] super::iort::descriptors_of(s, rmr).items[i]).memory.start.0 == memory.start.0
            && super::iort::descriptors_of(s, rmr).items[i].memory.end.0 == memory.end.0
}

/// The descriptors of a reserved memory node are read to their end, and so are
/// the mappings of one that reserves the memory.
pub open spec fn reservation_sound(s: Seq<u8>, node: Node, memory: PhysAddrRange) -> bool {
    node matches Node::ReservedMemory(rmr) ==> {
        &&& super::iort::descriptors_of(s, rmr).error is None
        &&& reserves_memory(s, node, memory) ==> super::iort::mappings_of(
            s,
            rmr.header,
        ).error is None
    }
}

/// Some node that reserves the memory maps the requester `id`.
pub open spec fn reserved_for(
    s: Seq<u8>,
    items: Seq<Node>,
    memory: PhysAddrRange,
    id: int,
) -> bool {
    exists|i: int|
        0 <= i < items.len() && reserves_memory(s, #[trigger] items[i], memory)
            && some_maps_requester(super::iort::mappings_of(s, items[i].spec_header()).items, id)
}

/// Some node reserves the memory.
pub open spec fn reserved(s: Seq<u8>, items: Seq<Node>, memory: PhysAddrRange) -> bool {
    exists|i: int| 0 <= i < items.len() && reserves_memory(s, #[trigger] items[i], memory)
}

/// Some node that reserves the memory has a mapping whose identifiers are not
/// all requesters.
pub open spec fn reserved_beyond(s: Seq<u8>, items: Seq<Node>, memory: PhysAddrRange) -> bool {
    exists|i: int|
        0 <= i < items.len() && reserves_memory(s, #[trigger] items[i], memory)
            && some_beyond_requesters(super::iort::mappings_of(s, items[i].spec_header()).items)
}

/// The number of mappings of the nodes that reserve the memory.
pub open spec fn reserved_mappings(s: Seq<u8>, items: Seq<Node>, memory: PhysAddrRange) -> nat
    decreases items.len(),
{
    if items.len() == 0 {
        0
    } else {
        (if reserves_memory(s, items[0], memory) {
            super::iort::mappings_of(s, items[0].spec_header()).items.len()
        } else {
            0
        }) + reserved_mappings(s, items.drop_first(), memory)
    }
}

/// What the first of some nodes adds.
#[verifier::rlimit(40)]
proof fn lemma_reserved_step(s: Seq<u8>, items: Seq<Node>, memory: PhysAddrRange)
    requires
        items.len() > 0,
    ensures
        ({
            let rest = items.drop_first();
            let here = reserves_memory(s, items[0], memory);
            let mappings = super::iort::mappings_of(s, items[0].spec_header()).items;
            &&& reserved(s, items, memory) == (here || reserved(s, rest, memory))
            &&& reserved_beyond(s, items, memory) == ((here && some_beyond_requesters(mappings))
                || reserved_beyond(s, rest, memory))
            &&& forall|id: int| #[trigger]
                reserved_for(s, items, memory, id) == ((here && some_maps_requester(mappings, id))
                    || reserved_for(s, rest, memory, id))
        }),
{
    let rest = items.drop_first();
    let reserves = |node: Node| reserves_memory(s, node, memory);
    let beyond = |node: Node|
        reserves_memory(s, node, memory) && some_beyond_requesters(
            super::iort::mappings_of(s, node.spec_header()).items,
        );
    crate::walk::lemma_any_step(items, reserves);
    crate::walk::lemma_any_step(items, beyond);
    assert(reserved(s, items, memory) == crate::walk::any(items, reserves)) by {
        lemma_reserved_is_any(s, items, memory);
    }
    assert(reserved(s, rest, memory) == crate::walk::any(rest, reserves)) by {
        lemma_reserved_is_any(s, rest, memory);
    }
    assert(reserved_beyond(s, items, memory) == crate::walk::any(items, beyond)) by {
        lemma_beyond_is_any(s, items, memory);
    }
    assert(reserved_beyond(s, rest, memory) == crate::walk::any(rest, beyond)) by {
        lemma_beyond_is_any(s, rest, memory);
    }
    let here = reserves_memory(s, items[0], memory);
    let mappings = super::iort::mappings_of(s, items[0].spec_header()).items;
    assert forall|id: int| #[trigger]
        reserved_for(s, items, memory, id) == ((here && some_maps_requester(mappings, id))
            || reserved_for(s, rest, memory, id)) by {
        let reserved_to = |node: Node|
            reserves_memory(s, node, memory) && some_maps_requester(
                super::iort::mappings_of(s, node.spec_header()).items,
                id,
            );
        crate::walk::lemma_any_step(items, reserved_to);
        lemma_reserved_for_is_any(s, items, memory, id);
        lemma_reserved_for_is_any(s, rest, memory, id);
    }
}

proof fn lemma_reserved_is_any(s: Seq<u8>, items: Seq<Node>, memory: PhysAddrRange)
    ensures
        reserved(s, items, memory) == crate::walk::any(
            items,
            |node: Node| reserves_memory(s, node, memory),
        ),
{
    let reserves = |node: Node| reserves_memory(s, node, memory);
    if crate::walk::any(items, reserves) {
        let i = choose|i: int| 0 <= i < items.len() && reserves(#[trigger] items[i]);
        assert(reserves_memory(s, items[i], memory));
    }
    if reserved(s, items, memory) {
        let i = choose|i: int|
            0 <= i < items.len() && reserves_memory(s, #[trigger] items[i], memory);
        assert(reserves(items[i]));
    }
}

proof fn lemma_beyond_is_any(s: Seq<u8>, items: Seq<Node>, memory: PhysAddrRange)
    ensures
        reserved_beyond(s, items, memory) == crate::walk::any(
            items,
            |node: Node|
                reserves_memory(s, node, memory) && some_beyond_requesters(
                    super::iort::mappings_of(s, node.spec_header()).items,
                ),
        ),
{
    let beyond = |node: Node|
        reserves_memory(s, node, memory) && some_beyond_requesters(
            super::iort::mappings_of(s, node.spec_header()).items,
        );
    if crate::walk::any(items, beyond) {
        let i = choose|i: int| 0 <= i < items.len() && beyond(#[trigger] items[i]);
        assert(reserves_memory(s, items[i], memory));
    }
    if reserved_beyond(s, items, memory) {
        let i = choose|i: int|
            0 <= i < items.len() && reserves_memory(s, #[trigger] items[i], memory)
                && some_beyond_requesters(
                super::iort::mappings_of(s, items[i].spec_header()).items,
            );
        assert(beyond(items[i]));
    }
}

proof fn lemma_reserved_for_is_any(
    s: Seq<u8>,
    items: Seq<Node>,
    memory: PhysAddrRange,
    id: int,
)
    ensures
        reserved_for(s, items, memory, id) == crate::walk::any(
            items,
            |node: Node|
                reserves_memory(s, node, memory) && some_maps_requester(
                    super::iort::mappings_of(s, node.spec_header()).items,
                    id,
                ),
        ),
{
    let reserved_to = |node: Node|
        reserves_memory(s, node, memory) && some_maps_requester(
            super::iort::mappings_of(s, node.spec_header()).items,
            id,
        );
    if crate::walk::any(items, reserved_to) {
        let i = choose|i: int| 0 <= i < items.len() && reserved_to(#[trigger] items[i]);
        assert(reserves_memory(s, items[i], memory));
    }
    if reserved_for(s, items, memory, id) {
        let i = choose|i: int|
            0 <= i < items.len() && reserves_memory(s, #[trigger] items[i], memory)
                && some_maps_requester(
                super::iort::mappings_of(s, items[i].spec_header()).items,
                id,
            );
        assert(reserved_to(items[i]));
    }
}

/// Taking in one node.
#[verifier::rlimit(40)]
proof fn lemma_scan_node(scan: RequesterScan, s: Seq<u8>, memory: PhysAddrRange, node: Node)
    requires
        crate::firm::pcie::canonical(scan.runs),
        scan.runs.len() <= 16,
        reservation_sound(s, node, memory),
    ensures
        ({
            let here = reserves_memory(s, node, memory);
            let mappings = super::iort::mappings_of(s, node.spec_header()).items;
            match scan.node(s, memory, node) {
                Ok(after) => {
                    &&& crate::firm::pcie::canonical(after.runs)
                    &&& after.runs.len() <= 16
                    &&& after.runs.len() <= scan.runs.len() + (if here {
                        mappings.len()
                    } else {
                        0
                    })
                    &&& after.found == (scan.found || here)
                    &&& after.unresolved == (scan.unresolved || (here && some_beyond_requesters(
                        mappings,
                    )))
                    &&& forall|id: int| #[trigger]
                        crate::firm::pcie::covered(after.runs, id) == (
                        crate::firm::pcie::covered(scan.runs, id) || (here && some_maps_requester(
                            mappings,
                            id,
                        )))
                },
                Err(error) => {
                    &&& error == IortError::BdfRanges(BdfRangeSetError::Full)
                    &&& here
                    &&& scan.runs.len() + mappings.len() > 16
                },
            }
        }),
{
    match node {
        Node::ReservedMemory(rmr) => {
            let items = super::iort::descriptors_of(s, rmr).items;
            let reserves = super::iort::reserves(memory);
            assert forall|i: int| 0 <= i < items.len() implies reserves(#[trigger] items[i]) == (
            items[i].memory.start.0 == memory.start.0 && items[i].memory.end.0
                == memory.end.0) by {}
            if crate::walk::any(items, reserves) {
                let i = choose|i: int| 0 <= i < items.len() && reserves(#[trigger] items[i]);
                assert(items[i].memory.start.0 == memory.start.0);
            }
            if reserves_memory(s, node, memory) {
                let i = choose|i: int|
                    0 <= i < items.len() && (#[trigger] items[i]).memory.start.0
                        == memory.start.0 && items[i].memory.end.0 == memory.end.0;
                assert(reserves(items[i]));
                lemma_scan_mappings(
                    RequesterScan { found: true, ..scan },
                    super::iort::mappings_of(s, rmr.header),
                );
            }
        },
        _ => {},
    }
}

#[verifier::rlimit(40)]
proof fn lemma_scan_nodes(
    scan: RequesterScan,
    s: Seq<u8>,
    memory: PhysAddrRange,
    walk: Walk<Node, IortError>,
)
    requires
        crate::firm::pcie::canonical(scan.runs),
        scan.runs.len() <= 16,
        walk.error is None,
        forall|i: int|
            0 <= i < walk.items.len() ==> reservation_sound(s, #[trigger] walk.items[i], memory),
    ensures
        match scan.nodes(s, memory, walk) {
            Ok(after) => {
                &&& crate::firm::pcie::canonical(after.runs)
                &&& after.found == (scan.found || reserved(s, walk.items, memory))
                &&& after.unresolved == (scan.unresolved || reserved_beyond(s, walk.items, memory))
                &&& forall|id: int| #[trigger]
                    crate::firm::pcie::covered(after.runs, id) == (crate::firm::pcie::covered(
                        scan.runs,
                        id,
                    ) || reserved_for(s, walk.items, memory, id))
            },
            Err(error) => {
                &&& error == IortError::BdfRanges(BdfRangeSetError::Full)
                &&& scan.runs.len() + reserved_mappings(s, walk.items, memory) > 16
            },
        },
    decreases walk.items.len(),
{
    if walk.items.len() > 0 {
        let first = walk.items[0];
        let rest = walk.rest();
        assert(reservation_sound(s, first, memory));
        lemma_scan_node(scan, s, memory, first);
        lemma_reserved_step(s, walk.items, memory);
        assert forall|i: int| 0 <= i < rest.items.len() implies reservation_sound(
            s,
            #[trigger] rest.items[i],
            memory,
        ) by {
            assert(reservation_sound(s, walk.items[i + 1], memory));
        }
        if scan.node(s, memory, first) is Ok {
            let after = scan.node(s, memory, first)->Ok_0;
            lemma_scan_nodes(after, s, memory, rest);
            if after.nodes(s, memory, rest) is Ok {
                let done = after.nodes(s, memory, rest)->Ok_0;
                assert forall|id: int| #[trigger]
                    crate::firm::pcie::covered(done.runs, id) == (crate::firm::pcie::covered(
                        scan.runs,
                        id,
                    ) || reserved_for(s, walk.items, memory, id)) by {
                    assert(crate::firm::pcie::covered(done.runs, id) == (
                    crate::firm::pcie::covered(after.runs, id) || reserved_for(
                        s,
                        rest.items,
                        memory,
                        id,
                    )));
                    let seen = reserved_for(s, walk.items, memory, id);
                    let before = crate::firm::pcie::covered(after.runs, id);
                }
            }
        }
    } else {
        assert(!reserved(s, walk.items, memory));
        assert(!reserved_beyond(s, walk.items, memory));
        assert forall|id: int| !#[trigger] reserved_for(s, walk.items, memory, id) by {}
    }
}

/// The requesters for which memory is reserved are those that the mappings of
/// the nodes that reserve it map. They are found where a node reserves the
/// memory, and are all known where the identifiers of its mappings are all
/// requesters; sixteen mappings always find room.
pub proof fn law_reserved_memory_ranges_follow_the_mappings(s: Seq<u8>, memory: PhysAddrRange)
    requires
        super::iort::nodes_of(s).error is None,
        forall|i: int|
            0 <= i < super::iort::nodes_of(s).items.len() ==> reservation_sound(
                s,
                #[trigger] super::iort::nodes_of(s).items[i],
                memory,
            ),
    ensures
        ({
            let items = super::iort::nodes_of(s).items;
            match RequesterScan::start().nodes(s, memory, super::iort::nodes_of(s)) {
                Ok(scan) => {
                    &&& crate::firm::pcie::canonical(scan.runs)
                    &&& scan.found == reserved(s, items, memory)
                    &&& scan.unresolved == reserved_beyond(s, items, memory)
                    &&& forall|id: int| #[trigger]
                        crate::firm::pcie::covered(scan.runs, id) == reserved_for(
                            s,
                            items,
                            memory,
                            id,
                        )
                },
                Err(error) => {
                    &&& error == IortError::BdfRanges(BdfRangeSetError::Full)
                    &&& reserved_mappings(s, items, memory) > 16
                },
            }
        }),
{
    let start = RequesterScan::start();
    lemma_scan_nodes(start, s, memory, super::iort::nodes_of(s));
    assert forall|id: int| !#[trigger] crate::firm::pcie::covered(start.runs, id) by {}
}

/// What was read is what the bytes of the descriptor at `at` say.
pub open spec fn descriptor_reads(s: Seq<u8>, at: int, descriptor: IortRmrDescriptor) -> bool {
    &&& descriptor.memory.start.0 == bytes::le64(s, at)
    &&& descriptor.memory.end.0 == bytes::le64(s, at) + bytes::le64(s, at + 8)
    &&& descriptor.reserved == bytes::le32(s, at + 16)
}

/// The memory of the descriptor at `at` is not empty and can be used.
pub open spec fn descriptor_sound(s: Seq<u8>, at: int) -> bool {
    bytes::le64(s, at + 8) > 0 && bytes::le64(s, at) + bytes::le64(s, at + 8) <= usize::MAX
}

proof fn lemma_descriptors_from(s: Seq<u8>, at: int, count: int)
    requires
        0 <= count,
        at + 20 * count <= s.len(),
        forall|i: int| 0 <= i < count ==> descriptor_sound(s, #[trigger] place(at, 20, i)),
    ensures
        ({
            let walk = super::iort::rmr_descriptors_from(s, at, count);
            &&& walk.error is None
            &&& walk.items.len() == count
            &&& forall|i: int|
                0 <= i < count ==> descriptor_reads(s, place(at, 20, i), #[trigger] walk.items[i])
        }),
    decreases count,
{
    if count > 0 {
        assert(descriptor_sound(s, place(at, 20, 0)));
        assert forall|i: int| 0 <= i < count - 1 implies descriptor_sound(
            s,
            #[trigger] place(at + 20, 20, i),
        ) by {
            assert(place(at, 20, i + 1) == place(at + 20, 20, i));
        }
        lemma_descriptors_from(s, at + 20, count - 1);
        let walk = super::iort::rmr_descriptors_from(s, at, count);
        let rest = super::iort::rmr_descriptors_from(s, at + 20, count - 1);
        let first = super::iort::rmr_descriptor_at(s, at)->Ok_0;
        assert(super::iort::rmr_descriptor_at(s, at) is Ok);
        Walk::lemma_cons(first, rest);
        assert(walk == Walk::cons(first, rest));
        assert forall|i: int| 0 <= i < count implies descriptor_reads(
            s,
            place(at, 20, i),
            #[trigger] walk.items[i],
        ) by {
            if i > 0 {
                assert(walk.items[i] == rest.items[i - 1]);
                assert(place(at, 20, i) == place(at + 20, 20, i - 1));
            }
        }
    }
}

/// Where record `i` of an array starts.
pub open spec fn place(at: int, size: int, i: int) -> int {
    at + size * i
}

/// The descriptors of a reserved memory node are read in order, twenty bytes
/// each, from where the node says.
pub proof fn law_descriptors_are_read_where_the_node_says(s: Seq<u8>, memory: IortReservedMemory)
    requires
        memory.header.offset + memory.header.length <= s.len() <= usize::MAX,
        memory.descriptor_offset >= 28,
        memory.descriptor_offset + 20 * memory.descriptor_count <= memory.header.length,
        forall|i: int|
            0 <= i < memory.descriptor_count ==> descriptor_sound(
                s,
                #[trigger] place(memory.header.offset + memory.descriptor_offset, 20, i),
            ),
    ensures
        ({
            let walk = super::iort::descriptors_of(s, memory);
            &&& walk.error is None
            &&& walk.items.len() == memory.descriptor_count
            &&& forall|i: int|
                0 <= i < walk.items.len() ==> descriptor_reads(
                    s,
                    place(memory.header.offset + memory.descriptor_offset, 20, i),
                    #[trigger] walk.items[i],
                )
        }),
{
    lemma_descriptors_from(
        s,
        memory.header.offset + memory.descriptor_offset,
        memory.descriptor_count as int,
    );
}

/// The identifiers of an array are read in order, four bytes each.
pub proof fn law_its_identifiers_are_read_in_order(s: Seq<u8>, at: int, count: int)
    requires
        0 <= count,
        at + 4 * count <= s.len(),
    ensures
        ({
            let walk = super::iort::its_identifiers_from(s, at, count);
            &&& walk.error is None
            &&& walk.items.len() == count
            &&& forall|i: int|
                0 <= i < count ==> (#[trigger] walk.items[i]).identifier == bytes::le32(
                    s,
                    at + 4 * i,
                )
        }),
    decreases count,
{
    if count > 0 {
        law_its_identifiers_are_read_in_order(s, at + 4, count - 1);
        let walk = super::iort::its_identifiers_from(s, at, count);
        let rest = super::iort::its_identifiers_from(s, at + 4, count - 1);
        let first = super::iort::its_identifier_at(s, at)->Ok_0;
        Walk::lemma_cons(first, rest);
        assert(walk == Walk::cons(first, rest));
        assert forall|i: int| 0 <= i < count implies (#[trigger] walk.items[i]).identifier
            == bytes::le32(s, at + 4 * i) by {
            if i > 0 {
                assert(walk.items[i] == rest.items[i - 1]);
            }
        }
    }
}

/// The interrupts of an array are read in order, eight bytes each.
pub proof fn law_interrupts_are_read_in_order(s: Seq<u8>, at: int, count: int)
    requires
        0 <= count,
        at + 8 * count <= s.len(),
    ensures
        ({
            let walk = super::iort::smmu_interrupts_from(s, at, count);
            &&& walk.error is None
            &&& walk.items.len() == count
            &&& forall|i: int|
                0 <= i < count ==> (#[trigger] walk.items[i]).gsiv == bytes::le32(s, at + 8 * i)
                    && walk.items[i].flags == bytes::le32(s, at + 8 * i + 4)
        }),
    decreases count,
{
    if count > 0 {
        law_interrupts_are_read_in_order(s, at + 8, count - 1);
        let walk = super::iort::smmu_interrupts_from(s, at, count);
        let rest = super::iort::smmu_interrupts_from(s, at + 8, count - 1);
        let first = super::iort::smmu_interrupt_at(s, at)->Ok_0;
        Walk::lemma_cons(first, rest);
        assert(walk == Walk::cons(first, rest));
        assert forall|i: int| 0 <= i < count implies (#[trigger] walk.items[i]).gsiv
            == bytes::le32(s, at + 8 * i) && walk.items[i].flags == bytes::le32(
            s,
            at + 8 * i + 4,
        ) by {
            if i > 0 {
                assert(walk.items[i] == rest.items[i - 1]);
            }
        }
    }
}

/// The array of a group's identifiers stands behind twenty bytes of the node,
/// an array of interrupts where the node says, behind at least sixty; they lie
/// in the node.
pub proof fn law_arrays_lie_in_their_node(
    group: super::iort::IortItsGroup,
    header: IortNodeHeader,
    offset: u32,
    count: u32,
)
    requires
        group.header.offset + group.header.length <= usize::MAX,
        header.offset + header.length <= usize::MAX,
    ensures
        match super::iort::its_identifier_array(group) {
            Ok(start) => {
                &&& start == group.header.offset + 20
                &&& 20 + 4 * group.its_count <= group.header.length
            },
            Err(_) => 20 + 4 * group.its_count > group.header.length,
        },
        count > 0 ==> match super::iort::smmu_interrupt_array(header, offset, count) {
            Ok(start) => {
                &&& start == header.offset + offset
                &&& offset >= 60
                &&& offset + 8 * count <= header.length
            },
            Err(_) => offset < 60 || offset + 8 * count > header.length,
        },
        count == 0 ==> super::iort::smmu_interrupt_array(header, offset, count) is Ok,
{
}

/// The global interrupts of an SMMU are four numbers at the offset that the
/// node gives, and there are none where the offset is zero.
pub proof fn law_global_interrupts_are_read_where_the_node_says(
    s: Seq<u8>,
    smmu: super::iort::IortSmmu,
)
    requires
        smmu.header.offset + smmu.header.length <= s.len() <= usize::MAX,
    ensures
        ({
            let at = smmu.header.offset + smmu.global_interrupt_offset;
            match super::iort::spec_global_interrupt(s, smmu) {
                Ok(None) => smmu.global_interrupt_offset == 0,
                Ok(Some(interrupt)) => {
                    &&& smmu.global_interrupt_offset > 0
                    &&& smmu.global_interrupt_offset + 16 <= smmu.header.length
                    &&& interrupt.nsg_irpt == bytes::le32(s, at)
                    &&& interrupt.nsg_irpt_flags == bytes::le32(s, at + 4)
                    &&& interrupt.nsg_cfg_irpt == bytes::le32(s, at + 8)
                    &&& interrupt.nsg_cfg_irpt_flags == bytes::le32(s, at + 12)
                },
                Err(_) => {
                    &&& smmu.global_interrupt_offset > 0
                    &&& smmu.global_interrupt_offset + 16 > smmu.header.length
                },
            }
        }),
{
}

/// The node at `at` breaks the table off: its header does not lie in the table,
/// its length is below that of a header, or it leaves the table.
pub open spec fn node_broken(s: Seq<u8>, at: int) -> bool {
    at + 3 > s.len() || bytes::le16(s, at + 1) < 16 || at + bytes::le16(s, at + 1) > s.len()
}

/// A table in which a node is broken off is refused, wherever the node stands.
#[verifier::rlimit(40)]
pub proof fn law_broken_node_is_refused(s: Seq<u8>, starts: Seq<int>, count: int, i: int)
    requires
        starts.len() > 0,
        count >= starts.len(),
        forall|j: int| 0 <= j < starts.len() - 1 ==> #[trigger] node_follows(s, starts, j),
        node_broken(s, starts.last()),
        0 <= i < starts.len(),
    ensures
        super::iort::nodes_from(s, starts[i], count - i).error is Some,
    decreases starts.len() - i,
{
    if i < starts.len() - 1 {
        assert(node_follows(s, starts, i));
        law_broken_node_is_refused(s, starts, count, i + 1);
        if super::iort::node_bounds_fault(s, starts[i]) is None {
            lemma_first_node(s, starts[i], count - i);
        }
    }
}

/// The nodes of a table have to start behind its fixed header of 48 bytes and
/// not behind its end.
pub proof fn law_nodes_start_behind_the_header(s: Seq<u8>)
    requires
        bytes::le32(s, 40) < 48 || bytes::le32(s, 40) > s.len(),
    ensures
        super::iort::nodes_of(s).error is Some,
        super::iort::nodes_of(s).items.len() == 0,
{
}

/// What mappings that are broken off would have said is not made up: an
/// identifier that none of the good ones in front applies to by more than its
/// last identifier is refused, and so is a scan for requesters.
pub proof fn law_broken_mappings_give_no_answer(
    walk: Walk<IortIdMapping, IortError>,
    kind: IortNodeKind,
    id: u32,
    fallback: Option<IortSingleStepTranslation>,
    scan: RequesterScan,
)
    requires
        walk.error is Some,
    ensures
        (forall|i: int|
            0 <= i < walk.items.len() ==> !preferred(#[trigger] walk.items[i], kind, id))
            ==> super::iort::translate_from(walk, kind, id, fallback) is Err,
        scan.mappings(walk) is Err,
    decreases walk.items.len(),
{
    if walk.items.len() > 0 {
        let first = walk.items[0];
        let rest = walk.rest();
        lemma_translate(first, kind, id);
        let step = IortSingleStepTranslation {
            id: first.spec_translate(kind, id)->0,
            output_reference: first.output_reference,
        };
        let next = if applies(first, kind, id) {
            Some(step)
        } else {
            fallback
        };
        let after = match scan.mapping(first) {
            Ok(after) => after,
            Err(_) => scan,
        };
        law_broken_mappings_give_no_answer(rest, kind, id, next, after);
        if forall|i: int| 0 <= i < walk.items.len() ==> !preferred(#[trigger] walk.items[i], kind, id) {
            assert(!preferred(walk.items[0], kind, id));
            assert forall|i: int| 0 <= i < rest.items.len() implies !preferred(
                #[trigger] rest.items[i],
                kind,
                id,
            ) by {
                assert(!preferred(walk.items[i + 1], kind, id));
            }
        }
    }
}

/// A broken-off list of nodes gives neither the requesters of reserved memory
/// nor the root complex of a segment.
pub proof fn law_broken_nodes_give_no_answer(
    s: Seq<u8>,
    memory: PhysAddrRange,
    segment: u16,
    scan: RequesterScan,
    walk: Walk<Node, IortError>,
)
    ensures
        walk.error is Some ==> scan.nodes(s, memory, walk) is Err,
        super::iort::nodes_of(s).error is Some ==> super::iort::spec_root_complex(s, segment)
            is Err,
    decreases walk.items.len(),
{
    if walk.items.len() > 0 && scan.node(s, memory, walk.items[0]) is Ok {
        law_broken_nodes_give_no_answer(
            s,
            memory,
            segment,
            scan.node(s, memory, walk.items[0])->Ok_0,
            walk.rest(),
        );
    }
}

/// A callback for one kind of node is called with every node of that kind,
/// whatever it holds, and for no other; a node that it is not called for is no
/// failure.
pub proof fn law_callbacks_get_all_of_their_kind<U, C, M>(
    node: Node,
    r: Result<(), IortError>,
    on_unit: U,
    on_root: C,
    on_memory: M,
) where
    U: Fn(IortSmmuV3) -> Result<(), IortError>,
    C: Fn(IortRootComplex) -> Result<(), IortError>,
    M: Fn(IortReservedMemory) -> Result<(), IortError>,

    ensures
        super::iort::smmu_v3_outcome(on_unit)(node, r) == (if node is SmmuV3 {
            call_ensures(on_unit, (node->SmmuV3_0,), r)
        } else {
            r is Ok
        }),
        super::iort::root_complex_outcome(on_root)(node, r) == (if node is RootComplex {
            call_ensures(on_root, (node->RootComplex_0,), r)
        } else {
            r is Ok
        }),
        super::iort::reserved_memory_outcome(on_memory)(node, r) == (if node is ReservedMemory {
            call_ensures(on_memory, (node->ReservedMemory_0,), r)
        } else {
            r is Ok
        }),
{
}

/// What is returned for a followed identifier is the node and the identifier
/// that it arrives with, nothing where there is no such node, and else the error
/// alone.
pub proof fn law_translation_names_node_and_identifier<'a>(
    r: Result<Option<IortIdTranslation<'a>>, IortError>,
    expected: Result<Option<(Node, u32)>, IortError>,
)
    requires
        super::iort::is_translation(r, expected),
    ensures
        match r {
            Ok(Some(found)) => expected == Ok::<Option<(Node, u32)>, IortError>(
                Some((found.node@, found.id)),
            ),
            Ok(None) => expected == Ok::<Option<(Node, u32)>, IortError>(None),
            Err(error) => expected == Err::<Option<(Node, u32)>, IortError>(error),
        },
{
}

/// A callback for nodes is called with the very node that was read.
pub proof fn law_callbacks_get_what_was_read<'a, F>(node: Node, r: Result<(), IortError>, on_node: F)
    where F: Fn(IortNode<'a>) -> Result<(), IortError>
    ensures
        super::iort::node_outcome(on_node)(node, r) <==> exists|read: IortNode<'a>| #[trigger]
            call_ensures(on_node, (read,), r) && read@ == node,
{
}

} // verus!
