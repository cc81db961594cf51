//! Passes over the draft edges of a network before it is finalized: drop the
//! edges that lose the whole signal, fold constant sources into their
//! targets' constant inputs, and keep one edge per source, target and input.

use vstd::prelude::*;

use crate::compiled::draft_order::{draft_le, draft_lt, drafts_sorted, sort_drafts, EdgeDraft};
use crate::compiled::csr::{count_below, csr_offsets, csr_valid};
use crate::compiled::draft_order::sort_keys;
use crate::position::{pos_lt, BlockPos};
use crate::compiled::network::{
    NetworkInputKind, NetworkInputPort, NetworkInputPower, NetworkNode, NetworkNodeId, NetworkWireId,
    MAX_WIRE_ATTENUATION, WIRE_BIT,
};

verus! {

/// Whether an edge still carries some signal: its attenuation is below the
/// full wire attenuation.
pub open spec fn carries_signal(edge: EdgeDraft) -> bool {
    edge.attenuation < MAX_WIRE_ATTENUATION
}

/// Keeps the edges that still carry some signal, in order.
pub fn clamp_edges(edges: &mut Vec<EdgeDraft>)
    ensures
        final(edges)@ == old(edges)@.filter(|edge: EdgeDraft| carries_signal(edge)),
{
    let mut kept: Vec<EdgeDraft> = Vec::new();
    let mut k: usize = 0;
    while k < edges.len()
        invariant
            k <= edges@.len(),
            edges@ == old(edges)@,
            kept@ == edges@.subrange(0, k as int).filter(|edge: EdgeDraft| carries_signal(edge)),
        decreases edges@.len() - k,
    {
        proof {
            reveal(Seq::filter);
            assert(edges@.subrange(0, k + 1).drop_last() =~= edges@.subrange(0, k as int));
        }
        let edge = edges[k];
        if edge.attenuation < MAX_WIRE_ATTENUATION {
            kept.push(edge);
        }
        k += 1;
    }
    proof {
        assert(edges@.subrange(0, edges@.len() as int) =~= edges@);
    }
    *edges = kept;
}

/// Whether the source of an edge has a constant output.
pub open spec fn from_constant(nodes: Seq<NetworkNode>, edge: EdgeDraft) -> bool {
    nodes[edge.source.0 as int].constant_output is Some
}

/// The constant input of a node raised by one folded edge.
pub open spec fn raise_input(input: NetworkInputPower, kind: NetworkInputKind, power: u8) -> NetworkInputPower {
    match kind {
        NetworkInputKind::Default => NetworkInputPower {
            default: if power > input.default {
                power
            } else {
                input.default
            },
            side: input.side,
        },
        NetworkInputKind::Side => NetworkInputPower {
            default: input.default,
            side: if power > input.side {
                power
            } else {
                input.side
            },
        },
    }
}

/// The nodes after folding, in order, every edge of `edges` whose source
/// has a constant output into its target's constant input.
pub open spec fn fold_inputs(nodes: Seq<NetworkNode>, edges: Seq<EdgeDraft>) -> Seq<NetworkNode>
    decreases edges.len(),
{
    if edges.len() == 0 {
        nodes
    } else {
        let before = fold_inputs(nodes, edges.drop_last());
        let edge = edges.last();
        match before[edge.source.0 as int].constant_output {
            Some(output) => {
                let power = if output > edge.attenuation {
                    (output - edge.attenuation) as u8
                } else {
                    0u8
                };
                let target = before[edge.target.0 as int];
                before.update(
                    edge.target.0 as int,
                    NetworkNode {
                        constant_input: raise_input(target.constant_input, edge.kind, power),
                        ..target
                    },
                )
            },
            None => before,
        }
    }
}

/// Folding changes the constant inputs of the nodes and nothing else.
pub proof fn lemma_fold_keeps_outputs(nodes: Seq<NetworkNode>, edges: Seq<EdgeDraft>)
    requires
        forall|k: int|
            0 <= k < edges.len() ==> (#[trigger] edges[k]).source.0 < nodes.len() && edges[k].target.0
                < nodes.len(),
    ensures
        fold_inputs(nodes, edges).len() == nodes.len(),
        forall|i: int|
            0 <= i < nodes.len() ==> #[trigger] fold_inputs(nodes, edges)[i].constant_output
                == nodes[i].constant_output,
        forall|i: int|
            0 <= i < nodes.len() ==> #[trigger] fold_inputs(nodes, edges)[i] == (NetworkNode {
                constant_input: fold_inputs(nodes, edges)[i].constant_input,
                ..nodes[i]
            }),
    decreases edges.len(),
{
    if edges.len() > 0 {
        lemma_fold_keeps_outputs(nodes, edges.drop_last());
        assert(edges.drop_last().len() < edges.len());
        assert(edges[edges.len() - 1] == edges.last());
    }
}

/// Folds every edge from a node with a constant output into its target's
/// constant input, raised to the output less the edge's attenuation, and
/// keeps the other edges in order.
pub fn fold_constants(nodes: &mut Vec<NetworkNode>, edges: &mut Vec<EdgeDraft>)
    requires
        forall|k: int|
            0 <= k < old(edges)@.len() ==> (#[trigger] old(edges)@[k]).source.0 < old(nodes)@.len()
                && old(edges)@[k].target.0 < old(nodes)@.len(),
    ensures
        final(nodes)@ == fold_inputs(old(nodes)@, old(edges)@),
        final(edges)@ == old(edges)@.filter(|edge: EdgeDraft| !from_constant(old(nodes)@, edge)),
{
    let ghost original = nodes@;
    let mut kept: Vec<EdgeDraft> = Vec::new();
    let mut k: usize = 0;
    while k < edges.len()
        invariant
            k <= edges@.len(),
            edges@ == old(edges)@,
            original == old(nodes)@,
            forall|j: int|
                0 <= j < edges@.len() ==> (#[trigger] edges@[j]).source.0 < original.len()
                    && edges@[j].target.0 < original.len(),
            nodes@ == fold_inputs(original, edges@.subrange(0, k as int)),
            kept@ == edges@.subrange(0, k as int).filter(|edge: EdgeDraft| !from_constant(original, edge)),
        decreases edges@.len() - k,
    {
        let ghost prefix = edges@.subrange(0, k + 1);
        proof {
            reveal(Seq::filter);
            assert(prefix.drop_last() =~= edges@.subrange(0, k as int));
            assert(prefix.last() == edges@[k as int]);
            assert forall|j: int| 0 <= j < prefix.drop_last().len() implies (#[trigger] prefix.drop_last()[j]).source.0
                < original.len() && prefix.drop_last()[j].target.0 < original.len() by {
                assert(prefix.drop_last()[j] == edges@[j]);
            }
            lemma_fold_keeps_outputs(original, prefix.drop_last());
        }
        let edge = edges[k];
        let source = edge.source.index();
        let target = edge.target.index();
        match nodes[source].constant_output {
            Some(output) => {
                let power = output.saturating_sub(edge.attenuation);
                let mut node = nodes[target];
                match edge.kind {
                    NetworkInputKind::Default => {
                        if power > node.constant_input.default {
                            node.constant_input.default = power;
                        }
                    },
                    NetworkInputKind::Side => {
                        if power > node.constant_input.side {
                            node.constant_input.side = power;
                        }
                    },
                }
                nodes.set(target, node);
            },
            None => {
                kept.push(edge);
            },
        }
        k += 1;
    }
    proof {
        assert(edges@.subrange(0, edges@.len() as int) =~= edges@);
    }
    *edges = kept;
}

/// Whether two drafts join the same source, target and input kind.
pub open spec fn same_route(a: EdgeDraft, b: EdgeDraft) -> bool {
    a.source == b.source && a.target == b.target && a.kind == b.kind
}

/// Drafts are ordered by route first: a draft between two of one route is of
/// that route too.
proof fn lemma_route_sandwich(a: EdgeDraft, b: EdgeDraft, c: EdgeDraft)
    requires
        draft_le(a, b),
        draft_le(b, c),
        same_route(a, c),
    ensures
        same_route(b, c),
{
}

/// Whether `kept` holds a draft of the route of `edge` that comes no later than it.
pub open spec fn covers_route(kept: Seq<EdgeDraft>, edge: EdgeDraft) -> bool {
    exists|i: int| 0 <= i < kept.len() && same_route(#[trigger] kept[i], edge) && draft_le(kept[i], edge)
}

/// Sorts the drafts and keeps, of each run with the same source, target and
/// input kind, only the first: the least draft of that route, with the
/// lowest attenuation.
pub fn deduplicate_edges(edges: &mut Vec<EdgeDraft>)
    ensures
        drafts_sorted(final(edges)@),
        forall|i: int, j: int|
            0 <= i < j < final(edges)@.len() ==> !same_route(final(edges)@[i], final(edges)@[j]),
        forall|i: int|
            0 <= i < final(edges)@.len() ==> old(edges)@.contains(#[trigger] final(edges)@[i]),
        forall|k: int| 0 <= k < old(edges)@.len() ==> covers_route(final(edges)@, #[trigger] old(edges)@[k]),
{
    let ghost original = edges@;
    sort_drafts(edges);
    let ghost sorted = edges@;
    proof {
        original.to_multiset_ensures();
        sorted.to_multiset_ensures();
        assert forall|k: int| 0 <= k < original.len() implies sorted.contains(#[trigger] original[k]) by {
            assert(original.contains(original[k]));
            assert(original.to_multiset().count(original[k]) > 0);
            assert(sorted.to_multiset().count(original[k]) > 0);
        }
        assert forall|k: int| 0 <= k < sorted.len() implies original.contains(#[trigger] sorted[k]) by {
            assert(sorted.contains(sorted[k]));
            assert(sorted.to_multiset().count(sorted[k]) > 0);
            assert(original.to_multiset().count(sorted[k]) > 0);
        }
    }
    let mut kept: Vec<EdgeDraft> = Vec::new();
    let mut k: usize = 0;
    while k < edges.len()
        invariant
            k <= edges@.len(),
            edges@ == sorted,
            drafts_sorted(sorted),
            drafts_sorted(kept@),
            forall|i: int, j: int| 0 <= i < j < kept@.len() ==> !same_route(kept@[i], kept@[j]),
            forall|i: int| 0 <= i < kept@.len() ==> sorted.contains(#[trigger] kept@[i]),
            k > 0 ==> kept@.len() > 0 && same_route(kept@.last(), sorted[k - 1]),
            forall|j: int| 0 <= j < k ==> covers_route(kept@, #[trigger] sorted[j]),
            forall|i: int| 0 <= i < kept@.len() ==> exists|j: int| 0 <= j < k && #[trigger] kept@[i] == sorted[j],
        decreases edges@.len() - k,
    {
        let edge = edges[k];
        let duplicate = if kept.len() > 0 {
            let previous = kept[kept.len() - 1];
            previous.source == edge.source && previous.target == edge.target && previous.kind
                == edge.kind
        } else {
            false
        };
        let ghost before = kept@;
        if !duplicate {
            kept.push(edge);
            proof {
                assert forall|i: int| 0 <= i < kept@.len() - 1 implies draft_le(#[trigger] kept@[i], edge) by {
                    let j = choose|j: int| 0 <= j < k && #[trigger] before[i] == sorted[j];
                    assert(kept@[i] == before[i]);
                }
                assert forall|i: int, j: int| 0 <= i < j < kept@.len() implies !same_route(kept@[i], kept@[j]) by {
                    if j == kept@.len() - 1 {
                        let last_index = before.len() - 1;
                        let last = before[last_index];
                        let a = choose|a: int| 0 <= a < k && #[trigger] before[last_index] == sorted[a];
                        assert(draft_le(sorted[a], sorted[k as int]));
                        assert(!same_route(last, edge));
                        if same_route(kept@[i], kept@[j]) {
                            assert(kept@[i] == before[i]);
                            if i < last_index {
                                assert(draft_le(before[i], last));
                                lemma_route_sandwich(before[i], last, edge);
                            }
                        }
                    } else {
                        assert(kept@[i] == before[i]);
                        assert(kept@[j] == before[j]);
                    }
                }
                assert forall|i: int| 0 <= i < kept@.len() implies exists|j: int| 0 <= j < k + 1 && #[trigger] kept@[i] == sorted[j] by {
                    if i < kept@.len() - 1 {
                        assert(kept@[i] == before[i]);
                    }
                }
                assert forall|j: int| 0 <= j < k + 1 implies covers_route(kept@, #[trigger] sorted[j]) by {
                    if j < k {
                        let i = choose|i: int|
                            0 <= i < before.len() && same_route(#[trigger] before[i], sorted[j]) && draft_le(
                                before[i],
                                sorted[j],
                            );
                        assert(kept@[i] == before[i]);
                    } else {
                        assert(same_route(kept@[kept@.len() - 1], sorted[j]));
                        assert(draft_le(kept@[kept@.len() - 1], sorted[j]));
                    }
                }
            }
        } else {
            proof {
                let last = kept@.len() - 1;
                let a = choose|a: int| 0 <= a < k && #[trigger] kept@[last] == sorted[a];
                assert(draft_le(sorted[a], sorted[k as int]));
                assert(same_route(kept@[last], sorted[k as int]));
            }
        }
        k += 1;
    }
    proof {
        assert forall|k: int| 0 <= k < original.len() implies covers_route(kept@, #[trigger] original[k]) by {
            assert(sorted.contains(original[k]));
            let j = choose|j: int| 0 <= j < sorted.len() && sorted[j] == original[k];
            assert(covers_route(kept@, sorted[j]));
        }
        assert forall|i: int| 0 <= i < kept@.len() implies original.contains(#[trigger] kept@[i]) by {
            assert(sorted.contains(kept@[i]));
            let j = choose|j: int| 0 <= j < sorted.len() && sorted[j] == kept@[i];
            assert(original.contains(sorted[j]));
        }
    }
    *edges = kept;
}

/// The input port that an edge gives its target: the target wire, when the
/// edge ends on one, else the source node with the edge's attenuation.
pub open spec fn port_of(edge: EdgeDraft) -> NetworkInputPort {
    match edge.target_wire {
        Some(wire) => NetworkInputPort { source: 0x8000_0000u32 | wire.0, kind: edge.kind, attenuation: 0 },
        None => NetworkInputPort { source: edge.source.0, kind: edge.kind, attenuation: edge.attenuation },
    }
}

/// The bit that stands for an input kind in a port key.
pub open spec fn kind_bit(kind: NetworkInputKind) -> u128 {
    match kind {
        NetworkInputKind::Default => 0,
        NetworkInputKind::Side => 1,
    }
}

/// A target and a port packed so that keys order as the pairs do: target,
/// then port source, then kind, then attenuation.
pub open spec fn port_key(target: NetworkNodeId, port: NetworkInputPort) -> u128 {
    ((target.0 as u128) << 64u128) | ((port.source as u128) << 32u128) | (kind_bit(port.kind) << 8u128)
        | (port.attenuation as u128)
}

/// The target of a port key.
pub open spec fn key_target(key: u128) -> u32 {
    (key >> 64u128) as u32
}

/// The port of a port key.
pub open spec fn key_port(key: u128) -> NetworkInputPort {
    NetworkInputPort {
        source: (key >> 32u128) as u32,
        kind: if (key >> 8u128) & 1u128 == 1u128 {
            NetworkInputKind::Side
        } else {
            NetworkInputKind::Default
        },
        attenuation: key as u8,
    }
}

proof fn lemma_port_key(target: NetworkNodeId, port: NetworkInputPort)
    ensures
        key_target(port_key(target, port)) == target.0,
        key_port(port_key(target, port)) == port,
{
    let t = target.0;
    let src = port.source;
    let kb = kind_bit(port.kind);
    let att = port.attenuation;
    assert(kb <= 1);
    assert(((((t as u128) << 64u128) | ((src as u128) << 32u128) | (kb << 8u128) | (att as u128)) >> 64u128) as u32 == t) by (bit_vector)
        requires kb <= 1;
    assert(((((t as u128) << 64u128) | ((src as u128) << 32u128) | (kb << 8u128) | (att as u128)) >> 32u128) as u32 == src) by (bit_vector)
        requires kb <= 1;
    assert((((((t as u128) << 64u128) | ((src as u128) << 32u128) | (kb << 8u128) | (att as u128)) >> 8u128) & 1u128) == kb) by (bit_vector)
        requires kb <= 1;
    assert(((((t as u128) << 64u128) | ((src as u128) << 32u128) | (kb << 8u128) | (att as u128))) as u8 == att) by (bit_vector)
        requires kb <= 1;
}

/// Whether keys are strictly increasing.
pub open spec fn strictly_ascending(keys: Seq<u128>) -> bool {
    forall|i: int, j: int| 0 <= i < j < keys.len() ==> keys[i] < keys[j]
}

/// Whether `keys` lists, once each and in ascending order, exactly the port
/// keys of `edges`.
pub open spec fn lists_port_keys(keys: Seq<u128>, edges: Seq<EdgeDraft>) -> bool {
    &&& strictly_ascending(keys)
    &&& forall|k: int| 0 <= k < edges.len() ==> keys.contains(port_key(#[trigger] edges[k].target, port_of(edges[k])))
    &&& forall|i: int| 0 <= i < keys.len() ==> exists|k: int| 0 <= k < edges.len() && #[trigger] keys[i] == port_key(edges[k].target, port_of(edges[k]))
}

/// The input ports of every node, indexed by target: each edge gives its
/// target one port, a wire when it ends on one, else its source node with
/// its attenuation; the ports are ordered by target, then port, with
/// duplicates removed, and the offsets give each node its range.
pub fn compile_input_ports(node_count: usize, edges: &[EdgeDraft]) -> (result: (Vec<u32>, Vec<NetworkInputPort>))
    requires
        node_count < usize::MAX,
        edges@.len() <= u32::MAX,
        forall|k: int| 0 <= k < edges@.len() ==> (#[trigger] edges@[k]).target.0 < node_count,
    ensures
        exists|keys: Seq<u128>| {
            &&& lists_port_keys(keys, edges@)
            &&& result.1@ == keys.map_values(|key: u128| key_port(key))
            &&& result.0@.len() == node_count + 1
            &&& forall|i: int| 0 <= i <= node_count ==> #[trigger] result.0@[i] == count_below(
                keys.map_values(|key: u128| key_target(key) as usize),
                i,
            )
        },
        csr_valid(result.0@, node_count as int, result.1@.len() as int),
{
    let mut keys: Vec<u128> = Vec::new();
    let mut k: usize = 0;
    while k < edges.len()
        invariant
            k <= edges@.len(),
            keys@.len() == k,
            forall|q: int| 0 <= q < k ==> #[trigger] keys@[q] == port_key(edges@[q].target, port_of(edges@[q])),
        decreases edges@.len() - k,
    {
        let edge = edges[k];
        let port = match edge.target_wire {
            Some(wire) => NetworkInputPort::wire(wire, edge.kind),
            None => NetworkInputPort::node(edge.source, edge.kind, edge.attenuation),
        };
        let kind: u128 = match port.kind {
            NetworkInputKind::Default => 0,
            NetworkInputKind::Side => 1,
        };
        keys.push(((edge.target.0 as u128) << 64u128) | ((port.source as u128) << 32u128) | (kind << 8u128)
            | (port.attenuation as u128));
        k += 1;
    }
    let ghost unsorted = keys@;
    sort_keys(&mut keys);
    let ghost sorted = keys@;
    proof {
        unsorted.to_multiset_ensures();
        sorted.to_multiset_ensures();
        assert forall|q: int| 0 <= q < sorted.len() implies unsorted.contains(#[trigger] sorted[q]) by {
            assert(sorted.contains(sorted[q]));
            assert(sorted.to_multiset().count(sorted[q]) > 0);
            assert(unsorted.to_multiset().count(sorted[q]) > 0);
        }
        assert forall|q: int| 0 <= q < unsorted.len() implies sorted.contains(#[trigger] unsorted[q]) by {
            assert(unsorted.contains(unsorted[q]));
            assert(unsorted.to_multiset().count(unsorted[q]) > 0);
            assert(sorted.to_multiset().count(unsorted[q]) > 0);
        }
    }
    let mut unique: Vec<u128> = Vec::new();
    let mut owners: Vec<usize> = Vec::new();
    let mut ports: Vec<NetworkInputPort> = Vec::new();
    let mut k: usize = 0;
    while k < keys.len()
        invariant
            keys@ == sorted,
            k <= sorted.len(),
            sorted.len() == edges@.len(),
            unsorted.len() == edges@.len(),
            forall|i: int, j: int| 0 <= i < j < sorted.len() ==> sorted[i] <= sorted[j],
            forall|q: int| 0 <= q < sorted.len() ==> unsorted.contains(#[trigger] sorted[q]),
            forall|q: int| 0 <= q < edges@.len() ==> #[trigger] unsorted[q] == port_key(edges@[q].target, port_of(edges@[q])),
            forall|q: int| 0 <= q < edges@.len() ==> (#[trigger] edges@[q]).target.0 < node_count,
            strictly_ascending(unique@),
            unique@.len() <= k,
            k > 0 ==> unique@.len() > 0 && unique@.last() == sorted[k - 1],
            forall|q: int| 0 <= q < k ==> unique@.contains(#[trigger] sorted[q]),
            forall|i: int| 0 <= i < unique@.len() ==> exists|q: int| 0 <= q < k && #[trigger] unique@[i] == sorted[q],
            owners@ == unique@.map_values(|key: u128| key_target(key) as usize),
            ports@ == unique@.map_values(|key: u128| key_port(key)),
            forall|i: int| 0 <= i < owners@.len() ==> #[trigger] owners@[i] < node_count,
        decreases sorted.len() - k,
    {
        let key = keys[k];
        let fresh = if unique.len() == 0 {
            true
        } else {
            unique[unique.len() - 1] != key
        };
        if fresh {
            let ghost q0 = choose|j: int| 0 <= j < unsorted.len() && unsorted[j] == sorted[k as int];
            proof {
                assert(unsorted.contains(sorted[k as int]));
            }
            proof {
                lemma_port_key(edges@[q0].target, port_of(edges@[q0]));
            }
            let ghost before = unique@;
            unique.push(key);
            owners.push((key >> 64u128) as u32 as usize);
            let kind = if (key >> 8u128) & 1u128 == 1u128 {
                NetworkInputKind::Side
            } else {
                NetworkInputKind::Default
            };
            ports.push(NetworkInputPort { source: (key >> 32u128) as u32, kind, attenuation: key as u8 });
            proof {
                assert forall|i: int, j: int| 0 <= i < j < unique@.len() implies unique@[i] < unique@[j] by {
                    if j == unique@.len() - 1 && i < j {
                        assert(unique@[i] == before[i]);
                        if i < before.len() - 1 {
                            assert(before[i] < before.last());
                        }
                        let a = choose|a: int| 0 <= a < k && #[trigger] before[before.len() - 1] == sorted[a];
                        assert(sorted[a] <= sorted[k as int]);
                    } else {
                        assert(unique@[i] == before[i]);
                        assert(unique@[j] == before[j]);
                    }
                }
                assert forall|q: int| 0 <= q < k + 1 implies unique@.contains(#[trigger] sorted[q]) by {
                    if q < k {
                        assert(before.contains(sorted[q]));
                        let i = choose|i: int| 0 <= i < before.len() && before[i] == sorted[q];
                        assert(unique@[i] == before[i]);
                    } else {
                        assert(unique@[unique@.len() - 1] == sorted[q]);
                    }
                }
                assert forall|i: int| 0 <= i < unique@.len() implies exists|q: int| 0 <= q < k + 1 && #[trigger] unique@[i] == sorted[q] by {
                    if i < before.len() {
                        assert(unique@[i] == before[i]);
                    }
                }
                assert(owners@ =~= unique@.map_values(|key: u128| key_target(key) as usize));
                assert(ports@ =~= unique@.map_values(|key: u128| key_port(key)));
            }
        } else {
            proof {
                assert forall|q: int| 0 <= q < k + 1 implies unique@.contains(#[trigger] sorted[q]) by {
                    if q == k {
                        assert(unique@[unique@.len() - 1] == sorted[q]);
                    }
                }
            }
        }
        k += 1;
    }
    proof {
        assert forall|q: int| 0 <= q < edges@.len() implies unique@.contains(port_key(#[trigger] edges@[q].target, port_of(edges@[q]))) by {
            assert(sorted.contains(unsorted[q]));
            let j = choose|j: int| 0 <= j < sorted.len() && sorted[j] == unsorted[q];
            assert(unique@.contains(sorted[j]));
        }
        assert forall|i: int| 0 <= i < unique@.len() implies exists|q: int| 0 <= q < edges@.len() && #[trigger] unique@[i] == port_key(edges@[q].target, port_of(edges@[q])) by {
            let a = choose|a: int| 0 <= a < sorted.len() && #[trigger] unique@[i] == sorted[a];
            assert(unsorted.contains(sorted[a]));
            let j = choose|j: int| 0 <= j < unsorted.len() && unsorted[j] == sorted[a];
            assert(unique@[i] == unsorted[j]);
        }
        assert(lists_port_keys(unique@, edges@));
    }
    let offsets = csr_offsets(node_count, owners.as_slice());
    (offsets, ports)
}

/// Whether positions are strictly ascending by `x`, then `y`, then `z`.
pub open spec fn positions_ascending(positions: Seq<BlockPos>) -> bool {
    forall|i: int, j: int| 0 <= i < j < positions.len() ==> pos_lt(positions[i], positions[j])
}

/// Adds `pos` to ascending positions, in its place, unless it is there.
pub(crate) fn insert_position(sorted: &mut Vec<BlockPos>, pos: BlockPos)
    requires
        positions_ascending(old(sorted)@),
    ensures
        positions_ascending(final(sorted)@),
        forall|p: BlockPos| final(sorted)@.contains(p) <==> (old(sorted)@.contains(p) || p == pos),
        final(sorted)@.len() <= old(sorted)@.len() + 1,
{
    let mut i: usize = 0;
    while i < sorted.len() && sorted[i].precedes(&pos)
        invariant
            i <= sorted@.len(),
            sorted@ == old(sorted)@,
            forall|j: int| 0 <= j < i ==> pos_lt(#[trigger] sorted@[j], pos),
        decreases sorted@.len() - i,
    {
        i += 1;
    }
    if i < sorted.len() && sorted[i].same(&pos) {
        return;
    }
    let ghost before = sorted@;
    sorted.insert(i, pos);
    proof {
        assert(i < before.len() ==> pos_lt(pos, before[i as int]));
        assert forall|a: int, b: int| 0 <= a < b < sorted@.len() implies pos_lt(sorted@[a], sorted@[b]) by {
            if b < i {
            } else if b == i {
                assert(sorted@[a] == before[a]);
            } else if a < i {
                assert(sorted@[a] == before[a]);
                assert(sorted@[b] == before[b - 1]);
                if b - 1 > i {
                    assert(pos_lt(before[i as int], before[b - 1]));
                }
            } else if a == i {
                assert(sorted@[b] == before[b - 1]);
                if b - 1 > i {
                    assert(pos_lt(before[i as int], before[b - 1]));
                }
            } else {
                assert(sorted@[a] == before[a - 1]);
                assert(sorted@[b] == before[b - 1]);
            }
        }
        assert forall|p: BlockPos| sorted@.contains(p) <==> (before.contains(p) || p == pos) by {
            if sorted@.contains(p) {
                let k = choose|k: int| 0 <= k < sorted@.len() && sorted@[k] == p;
                if k < i {
                    assert(before[k] == p);
                } else if k > i {
                    assert(before[k - 1] == p);
                }
            }
            if before.contains(p) {
                let k = choose|k: int| 0 <= k < before.len() && before[k] == p;
                if k < i {
                    assert(sorted@[k] == p);
                } else {
                    assert(sorted@[k + 1] == p);
                }
            }
            if p == pos {
                assert(sorted@[i as int] == p);
            }
        }
    }
}

/// Sorts dependency positions by `x`, then `y`, then `z`, and removes the
/// duplicates: afterwards each position of the list stands in it once.
pub fn optimize_dependencies(dependencies: &mut Vec<BlockPos>)
    ensures
        positions_ascending(final(dependencies)@),
        forall|p: BlockPos| final(dependencies)@.contains(p) <==> old(dependencies)@.contains(p),
        final(dependencies)@.len() <= old(dependencies)@.len(),
{
    let mut sorted: Vec<BlockPos> = Vec::new();
    let mut k: usize = 0;
    while k < dependencies.len()
        invariant
            k <= dependencies@.len(),
            dependencies@ == old(dependencies)@,
            positions_ascending(sorted@),
            forall|p: BlockPos| sorted@.contains(p) <==> dependencies@.take(k as int).contains(p),
            sorted@.len() <= k,
        decreases dependencies@.len() - k,
    {
        insert_position(&mut sorted, dependencies[k]);
        proof {
            let taken = dependencies@.take(k + 1);
            assert(taken =~= dependencies@.take(k as int).push(dependencies@[k as int]));
            assert forall|p: BlockPos| taken.contains(p) <==> (dependencies@.take(k as int).contains(p) || p == dependencies@[k as int]) by {
                if taken.contains(p) {
                    let j = choose|j: int| 0 <= j < taken.len() && taken[j] == p;
                    if j < k {
                        assert(dependencies@.take(k as int)[j] == p);
                    }
                }
                if dependencies@.take(k as int).contains(p) {
                    let j = choose|j: int| 0 <= j < k && dependencies@.take(k as int)[j] == p;
                    assert(taken[j] == p);
                }
                if p == dependencies@[k as int] {
                    assert(taken[k as int] == p);
                }
            }
        }
        k += 1;
    }
    proof {
        assert(dependencies@.take(dependencies@.len() as int) =~= dependencies@);
    }
    *dependencies = sorted;
}

} // verus!
