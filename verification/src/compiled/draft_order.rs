//! The order of edge drafts and the sorts that use it.

use vstd::prelude::*;

use crate::compiled::network::{NetworkInputKind, NetworkNodeId, NetworkWireId};

verus! {

/// A draft edge, before the edges are ordered and attached to their source nodes.
#[derive(Clone, Copy, Debug, PartialEq, Eq, Structural)]
pub struct EdgeDraft {
    pub source: NetworkNodeId,
    pub target: NetworkNodeId,
    pub kind: NetworkInputKind,
    pub attenuation: u8,
    pub source_wire: Option<NetworkWireId>,
    pub target_wire: Option<NetworkWireId>,
}

/// The rank of an input kind: default before side.
pub open spec fn kind_rank(kind: NetworkInputKind) -> int {
    match kind {
        NetworkInputKind::Default => 0,
        NetworkInputKind::Side => 1,
    }
}

/// The rank of an optional wire: none first, then by index.
pub open spec fn wire_rank(wire: Option<NetworkWireId>) -> int {
    match wire {
        None => 0,
        Some(id) => id.0 + 1,
    }
}

/// The strict order of drafts: by source, target, kind, attenuation, source
/// wire and target wire.
pub open spec fn draft_lt(a: EdgeDraft, b: EdgeDraft) -> bool {
    if a.source.0 != b.source.0 {
        a.source.0 < b.source.0
    } else if a.target.0 != b.target.0 {
        a.target.0 < b.target.0
    } else if a.kind != b.kind {
        kind_rank(a.kind) < kind_rank(b.kind)
    } else if a.attenuation != b.attenuation {
        a.attenuation < b.attenuation
    } else if wire_rank(a.source_wire) != wire_rank(b.source_wire) {
        wire_rank(a.source_wire) < wire_rank(b.source_wire)
    } else {
        wire_rank(a.target_wire) < wire_rank(b.target_wire)
    }
}

/// Whether a draft comes no later than another.
pub open spec fn draft_le(a: EdgeDraft, b: EdgeDraft) -> bool {
    a == b || draft_lt(a, b)
}

/// Whether drafts are listed in order.
pub open spec fn drafts_sorted(drafts: Seq<EdgeDraft>) -> bool {
    forall|i: int, j: int| 0 <= i < j < drafts.len() ==> draft_le(drafts[i], drafts[j])
}

fn compare_kinds(a: NetworkInputKind, b: NetworkInputKind) -> (order: core::cmp::Ordering)
    ensures
        (order == core::cmp::Ordering::Less) == (kind_rank(a) < kind_rank(b)),
        (order == core::cmp::Ordering::Equal) == (a == b),
        (order == core::cmp::Ordering::Greater) == (kind_rank(a) > kind_rank(b)),
{
    match (a, b) {
        (NetworkInputKind::Default, NetworkInputKind::Side) => core::cmp::Ordering::Less,
        (NetworkInputKind::Side, NetworkInputKind::Default) => core::cmp::Ordering::Greater,
        _ => core::cmp::Ordering::Equal,
    }
}

fn compare_wires(a: Option<NetworkWireId>, b: Option<NetworkWireId>) -> (order: core::cmp::Ordering)
    ensures
        (order == core::cmp::Ordering::Less) == (wire_rank(a) < wire_rank(b)),
        (order == core::cmp::Ordering::Equal) == (a == b),
        (order == core::cmp::Ordering::Greater) == (wire_rank(a) > wire_rank(b)),
{
    match (a, b) {
        (None, None) => core::cmp::Ordering::Equal,
        (None, Some(_)) => core::cmp::Ordering::Less,
        (Some(_), None) => core::cmp::Ordering::Greater,
        (Some(x), Some(y)) => {
            if x.0 < y.0 {
                core::cmp::Ordering::Less
            } else if x.0 == y.0 {
                core::cmp::Ordering::Equal
            } else {
                core::cmp::Ordering::Greater
            }
        },
    }
}

fn compare_numbers(a: u32, b: u32) -> (order: core::cmp::Ordering)
    ensures
        (order == core::cmp::Ordering::Less) == (a < b),
        (order == core::cmp::Ordering::Equal) == (a == b),
        (order == core::cmp::Ordering::Greater) == (a > b),
{
    if a < b {
        core::cmp::Ordering::Less
    } else if a == b {
        core::cmp::Ordering::Equal
    } else {
        core::cmp::Ordering::Greater
    }
}

fn compare_levels(a: u8, b: u8) -> (order: core::cmp::Ordering)
    ensures
        (order == core::cmp::Ordering::Less) == (a < b),
        (order == core::cmp::Ordering::Equal) == (a == b),
        (order == core::cmp::Ordering::Greater) == (a > b),
{
    if a < b {
        core::cmp::Ordering::Less
    } else if a == b {
        core::cmp::Ordering::Equal
    } else {
        core::cmp::Ordering::Greater
    }
}

/// The three-way comparison of drafts in the order of `draft_lt`.
pub fn compare_drafts(a: &EdgeDraft, b: &EdgeDraft) -> (order: core::cmp::Ordering)
    ensures
        (order == core::cmp::Ordering::Less) == draft_lt(*a, *b),
        (order == core::cmp::Ordering::Equal) == (*a == *b),
        (order == core::cmp::Ordering::Greater) == draft_lt(*b, *a),
{
    let by_source = compare_numbers(a.source.0, b.source.0);
    match by_source {
        core::cmp::Ordering::Equal => {},
        _ => {
            return by_source;
        },
    }
    let by_target = compare_numbers(a.target.0, b.target.0);
    match by_target {
        core::cmp::Ordering::Equal => {},
        _ => {
            return by_target;
        },
    }
    let by_kind = compare_kinds(a.kind, b.kind);
    match by_kind {
        core::cmp::Ordering::Equal => {},
        _ => {
            return by_kind;
        },
    }
    let by_attenuation = compare_levels(a.attenuation, b.attenuation);
    match by_attenuation {
        core::cmp::Ordering::Equal => {},
        _ => {
            return by_attenuation;
        },
    }
    let by_source_wire = compare_wires(a.source_wire, b.source_wire);
    match by_source_wire {
        core::cmp::Ordering::Equal => {},
        _ => {
            return by_source_wire;
        },
    }
    compare_wires(a.target_wire, b.target_wire)
}

} // verus!

verus! {

/// Sorts drafts with `slice::sort_unstable_by` under `compare_drafts`, a
/// total order: the result holds the same drafts, in the order of `draft_le`.
#[verifier::external_body]
pub(crate) fn sort_drafts(drafts: &mut Vec<EdgeDraft>)
    ensures
        final(drafts)@.to_multiset() == old(drafts)@.to_multiset(),
        drafts_sorted(final(drafts)@),
{
    drafts.sort_unstable_by(|a, b| compare_drafts(a, b));
}

/// Sorts keys ascending with `slice::sort_unstable`: the result holds the same keys.
#[verifier::external_body]
pub(crate) fn sort_keys(keys: &mut Vec<u128>)
    ensures
        final(keys)@.to_multiset() == old(keys)@.to_multiset(),
        forall|i: int, j: int| 0 <= i < j < final(keys)@.len() ==> final(keys)@[i] <= final(keys)@[j],
{
    keys.sort_unstable();
}

} // verus!
