//! The static network: its nodes, the edges between them, their input
//! ports, the direct fast-input targets and the dense wire graph.

use vstd::prelude::*;

use crate::compiled::csr::{
    count_below,
    csr_is_valid, csr_offsets, csr_range, csr_ranges_in_bounds, csr_slice, csr_valid,
    lemma_csr_valid_in_bounds,
};
use crate::compiled::dense::{DenseWireGraph, WireGraphError};
use crate::compiled::dependencies::{depends_on, index_ascending, index_dependencies, listed_at};
use crate::compiled::draft_order::{draft_le, drafts_sorted, sort_drafts, sort_keys, EdgeDraft};
use crate::compiled::network::{
    NetworkBuildStats, NetworkEdge, NetworkInputKind, NetworkInputPort, NetworkNode, NetworkNodeId,
    NetworkWire, NetworkWireId, MAX_WIRE_ATTENUATION,
};
use crate::position::BlockPos;
use crate::posmap::PositionMap;

verus! {

/// Why a static network is inconsistent.
#[derive(Clone, Copy, Debug, PartialEq, Eq, Structural)]
pub enum NetworkError {
    /// The node table and the position index differ in length.
    PositionIndexSizeMismatch,
    /// The dense wire graph is inconsistent.
    Wires(WireGraphError),
    /// The input offset table does not fit the input ports.
    InputCsrMismatch,
    /// The direct fast-target offset table does not fit its targets.
    DirectFastTargetCsrMismatch,
    /// A node's id is not its slot, or the position index does not send its position to it.
    NodeIndexMismatch(BlockPos),
    /// An edge of a node starts elsewhere or loses a whole signal.
    EdgeRangeMismatch(BlockPos),
    /// An edge ends at a node past the end of the node table.
    StaleEdgeTarget,
    /// An edge's wire route names a wire past the end of the wire table.
    StaleWireEndpoint,
    /// An edge names a wire at one end only.
    IncompleteWireRoute,
}

/// What a network is built from.
pub struct NetworkBuildParts {
    pub nodes: Vec<NetworkNode>,
    pub positions: PositionMap<NetworkNodeId>,
    pub drafts: Vec<EdgeDraft>,
    pub position_dependencies: Vec<(BlockPos, NetworkNodeId)>,
    pub input_offsets: Vec<u32>,
    pub input_ports: Vec<NetworkInputPort>,
    pub wires: DenseWireGraph,
    pub build_stats: NetworkBuildStats,
}

/// The static network.
pub struct StaticNetwork {
    pub nodes: Vec<NetworkNode>,
    pub edges: Vec<NetworkEdge>,
    pub positions: PositionMap<NetworkNodeId>,
    pub input_offsets: Vec<u32>,
    pub input_ports: Vec<NetworkInputPort>,
    pub direct_fast_target_offsets: Vec<u32>,
    pub direct_fast_targets: Vec<NetworkNodeId>,
    pub reverse_dependencies: PositionMap<Vec<NetworkNodeId>>,
    pub wires: DenseWireGraph,
    pub build_stats: NetworkBuildStats,
}

/// The edge made from a draft.
pub open spec fn edge_of(draft: EdgeDraft) -> NetworkEdge {
    NetworkEdge {
        source: draft.source,
        target: draft.target,
        kind: draft.kind,
        attenuation: draft.attenuation,
        source_wire: draft.source_wire,
        target_wire: draft.target_wire,
    }
}

/// The draft that an edge was made from.
pub open spec fn draft_of(edge: NetworkEdge) -> EdgeDraft {
    EdgeDraft {
        source: edge.source,
        target: edge.target,
        kind: edge.kind,
        attenuation: edge.attenuation,
        source_wire: edge.source_wire,
        target_wire: edge.target_wire,
    }
}

/// Whether each node's id is its slot.
pub open spec fn ids_in_order(nodes: Seq<NetworkNode>) -> bool {
    forall|i: int| 0 <= i < nodes.len() ==> (#[trigger] nodes[i]).id.0 == i
}

/// Whether `edges` are, as drafts, the drafts of `drafts` whose source is
/// below `n`, in the order of `draft_le`: the drafts sorted, those with a
/// source below `n` first, and the edges made from exactly those.
pub open spec fn attaches_sorted_drafts(drafts: Seq<EdgeDraft>, edges: Seq<NetworkEdge>, n: int) -> bool {
    exists|sorted: Seq<EdgeDraft>| {
        &&& sorted.to_multiset() == drafts.to_multiset()
        &&& drafts_sorted(sorted)
        &&& edges.len() <= sorted.len()
        &&& edges.map_values(|e: NetworkEdge| draft_of(e)) == sorted.take(edges.len() as int)
        &&& forall|k: int| 0 <= k < edges.len() ==> (#[trigger] sorted[k]).source.0 < n
        &&& forall|k: int| edges.len() <= k < sorted.len() ==> (#[trigger] sorted[k]).source.0 >= n
    }
}

/// A direct fast pair packed as source in the high half and target in the low half.
pub open spec fn pack_pair(source: u32, target: u32) -> u128 {
    ((source as u128) << 32u128) | (target as u128)
}

pub proof fn lemma_pack_pair(source: u32, target: u32)
    ensures
        pack_pair(source, target) >> 32u128 == source as u128,
        pack_pair(source, target) as u32 == target,
{
    assert((((source as u128) << 32u128) | (target as u128)) >> 32u128 == source as u128) by (bit_vector);
    assert(((((source as u128) << 32u128) | (target as u128)) as u32) == target) by (bit_vector);
}

/// Whether an edge runs straight from a node into a node that reads its
/// inputs on the fast path.
pub open spec fn direct_fast_edge(nodes: Seq<NetworkNode>, edge: NetworkEdge) -> bool {
    &&& edge.source_wire is None
    &&& edge.target.0 < nodes.len()
    &&& nodes[edge.target.0 as int].fast_input
}

/// Whether `key` packs the source and target of a direct fast edge among
/// the first `upto` edges.
pub open spec fn fast_key(nodes: Seq<NetworkNode>, edges: Seq<NetworkEdge>, key: u128, upto: int) -> bool {
    exists|e: int|
        #![trigger edges[e]]
        0 <= e < upto && direct_fast_edge(nodes, edges[e]) && key == pack_pair(edges[e].source.0, edges[e].target.0)
}

/// Whether `keys` lists, once each and in ascending order, exactly the
/// packed source and target of the direct fast edges among `edges`.
pub open spec fn lists_fast_pairs(keys: Seq<u128>, nodes: Seq<NetworkNode>, edges: Seq<NetworkEdge>) -> bool {
    &&& forall|i: int, j: int| 0 <= i < j < keys.len() ==> keys[i] < keys[j]
    &&& forall|k: int|
        0 <= k < edges.len() && direct_fast_edge(nodes, #[trigger] edges[k]) ==> keys.contains(
            pack_pair(edges[k].source.0, edges[k].target.0),
        )
    &&& forall|i: int| 0 <= i < keys.len() ==> fast_key(nodes, edges, #[trigger] keys[i], edges.len() as int)
}

/// Whether `offsets` and `targets` index the direct fast edges by source:
/// the targets are the fast pairs in ascending order, and each source owns
/// the run of them that it starts.
pub open spec fn indexes_fast_targets(
    nodes: Seq<NetworkNode>,
    edges: Seq<NetworkEdge>,
    offsets: Seq<u32>,
    targets: Seq<NetworkNodeId>,
) -> bool {
    exists|keys: Seq<u128>|
        {
            &&& lists_fast_pairs(keys, nodes, edges)
            &&& targets == keys.map_values(|key: u128| NetworkNodeId(key as u32))
            &&& offsets.len() == nodes.len() + 1
            &&& forall|i: int|
                0 <= i <= nodes.len() ==> #[trigger] offsets[i] == count_below(
                    keys.map_values(|key: u128| (key >> 32u128) as usize),
                    i,
                )
        }
}

/// Indexes the direct edges into fast-input nodes by source: each pair of
/// source and target once, ordered by source, then target.
fn index_fast_targets(nodes: &Vec<NetworkNode>, edges: &Vec<NetworkEdge>) -> (result: (Vec<u32>, Vec<NetworkNodeId>))
    requires
        nodes@.len() < u32::MAX,
        edges@.len() <= u32::MAX,
        forall|q: int| 0 <= q < edges@.len() ==> (#[trigger] edges@[q]).source.0 < nodes@.len(),
    ensures
        indexes_fast_targets(nodes@, edges@, result.0@, result.1@),
        csr_valid(result.0@, nodes@.len() as int, result.1@.len() as int),
        forall|k: int| 0 <= k < result.1@.len() ==> (#[trigger] result.1@[k]).0 < nodes@.len(),
{
    let mut keys: Vec<u128> = Vec::new();
    let mut k: usize = 0;
    while k < edges.len()
        invariant
            k <= edges@.len(),
            keys@.len() <= k,
            forall|q: int| 0 <= q < edges@.len() ==> (#[trigger] edges@[q]).source.0 < nodes@.len(),
            forall|q: int|
                0 <= q < keys@.len() ==> fast_key(nodes@, edges@, #[trigger] keys@[q], k as int),
            forall|e: int|
                0 <= e < k && direct_fast_edge(nodes@, #[trigger] edges@[e]) ==> keys@.contains(
                    pack_pair(edges@[e].source.0, edges@[e].target.0),
                ),
        decreases edges@.len() - k,
    {
        let edge = edges[k];
        let ghost before = keys@;
        if edge.source_wire.is_none() && edge.target.index() < nodes.len() && nodes[edge.target.index()].fast_input {
            keys.push(((edge.source.0 as u128) << 32u128) | (edge.target.0 as u128));
            proof {
                assert(keys@[before.len() as int] == pack_pair(edge.source.0, edge.target.0));
                assert forall|q: int| 0 <= q < keys@.len() implies fast_key(nodes@, edges@, #[trigger] keys@[q], k + 1) by {
                    if q < before.len() {
                        assert(keys@[q] == before[q]);
                        let e = choose|e: int|
                            0 <= e < k && direct_fast_edge(nodes@, edges@[e]) && before[q] == pack_pair(
                                edges@[e].source.0,
                                edges@[e].target.0,
                            );
                        assert(0 <= e < k + 1 && direct_fast_edge(nodes@, edges@[e]) && keys@[q] == pack_pair(
                            edges@[e].source.0,
                            edges@[e].target.0,
                        ));
                    } else {
                        assert(direct_fast_edge(nodes@, edges@[k as int]));
                    }
                }
                assert forall|e: int|
                    0 <= e < k + 1 && direct_fast_edge(nodes@, #[trigger] edges@[e]) implies keys@.contains(
                        pack_pair(edges@[e].source.0, edges@[e].target.0),
                    ) by {
                    if e < k {
                        let j = choose|j: int| 0 <= j < before.len() && before[j] == pack_pair(
                            edges@[e].source.0,
                            edges@[e].target.0,
                        );
                        assert(keys@[j] == before[j]);
                    } else {
                        assert(keys@[before.len() as int] == pack_pair(edges@[e].source.0, edges@[e].target.0));
                    }
                }
            }
        } else {
            proof {
                assert(!direct_fast_edge(nodes@, edges@[k as int]));
                assert forall|q: int| 0 <= q < keys@.len() implies fast_key(nodes@, edges@, #[trigger] keys@[q], k + 1) by {
                    let e = choose|e: int|
                        0 <= e < k && direct_fast_edge(nodes@, edges@[e]) && keys@[q] == pack_pair(
                            edges@[e].source.0,
                            edges@[e].target.0,
                        );
                    assert(0 <= e < k + 1);
                }
            }
        }
        k += 1;
    }
    let ghost unsorted = keys@;
    proof {
        assert forall|q: int| 0 <= q < unsorted.len() implies fast_key(nodes@, edges@, #[trigger] unsorted[q], edges@.len() as int) by {
            let e = choose|e: int|
                0 <= e < k && direct_fast_edge(nodes@, edges@[e]) && unsorted[q] == pack_pair(
                    edges@[e].source.0,
                    edges@[e].target.0,
                );
            assert(0 <= e < edges@.len());
        }
    }
    sort_keys(&mut keys);
    let ghost sorted = keys@;
    proof {
        unsorted.to_multiset_ensures();
        sorted.to_multiset_ensures();
        assert forall|q: int| 0 <= q < sorted.len() implies unsorted.contains(#[trigger] sorted[q]) by {
            assert(sorted.contains(sorted[q]));
            assert(sorted.to_multiset().count(sorted[q]) > 0);
            assert(unsorted.to_multiset().count(sorted[q]) > 0);
        }
        assert forall|q: int| 0 <= q < unsorted.len() implies sorted.contains(#[trigger] unsorted[q]) by {
            assert(unsorted.contains(unsorted[q]));
            assert(unsorted.to_multiset().count(unsorted[q]) > 0);
            assert(sorted.to_multiset().count(unsorted[q]) > 0);
        }
    }
    let mut unique: Vec<u128> = Vec::new();
    let mut owners: Vec<usize> = Vec::new();
    let mut targets: Vec<NetworkNodeId> = Vec::new();
    let mut k: usize = 0;
    while k < keys.len()
        invariant
            keys@ == sorted,
            k <= sorted.len(),
            sorted.len() == unsorted.len(),
            unsorted.len() <= edges@.len(),
            edges@.len() <= u32::MAX,
            forall|i: int, j: int| 0 <= i < j < sorted.len() ==> sorted[i] <= sorted[j],
            forall|q: int| 0 <= q < sorted.len() ==> unsorted.contains(#[trigger] sorted[q]),
            forall|q: int|
                0 <= q < unsorted.len() ==> fast_key(nodes@, edges@, #[trigger] unsorted[q], edges@.len() as int),
            forall|q: int| 0 <= q < edges@.len() ==> (#[trigger] edges@[q]).source.0 < nodes@.len(),
            forall|i: int, j: int| 0 <= i < j < unique@.len() ==> unique@[i] < unique@[j],
            unique@.len() <= k,
            k > 0 ==> unique@.len() > 0 && unique@.last() == sorted[k - 1],
            forall|q: int| 0 <= q < k ==> unique@.contains(#[trigger] sorted[q]),
            forall|i: int| 0 <= i < unique@.len() ==> exists|q: int| 0 <= q < k && #[trigger] unique@[i] == sorted[q],
            owners@ == unique@.map_values(|key: u128| (key >> 32u128) as usize),
            targets@ == unique@.map_values(|key: u128| NetworkNodeId(key as u32)),
            forall|i: int| 0 <= i < owners@.len() ==> #[trigger] owners@[i] < nodes@.len(),
            forall|i: int| 0 <= i < targets@.len() ==> (#[trigger] targets@[i]).0 < nodes@.len(),
        decreases sorted.len() - k,
    {
        let key = keys[k];
        let fresh = if unique.len() == 0 {
            true
        } else {
            unique[unique.len() - 1] != key
        };
        if fresh {
            let ghost q0 = choose|j: int| 0 <= j < unsorted.len() && unsorted[j] == sorted[k as int];
            let ghost e0 = choose|e: int|
                0 <= e < edges@.len() && direct_fast_edge(nodes@, edges@[e]) && unsorted[q0] == pack_pair(
                    edges@[e].source.0,
                    edges@[e].target.0,
                );
            proof {
                assert(unsorted.contains(sorted[k as int]));
                lemma_pack_pair(edges@[e0].source.0, edges@[e0].target.0);
            }
            let ghost before = unique@;
            unique.push(key);
            owners.push((key >> 32u128) as usize);
            targets.push(NetworkNodeId(key as u32));
            proof {
                assert forall|i: int, j: int| 0 <= i < j < unique@.len() implies unique@[i] < unique@[j] by {
                    if j == unique@.len() - 1 && i < j {
                        assert(unique@[i] == before[i]);
                        if i < before.len() - 1 {
                            assert(before[i] < before.last());
                        }
                        let a = choose|a: int| 0 <= a < k && #[trigger] before[before.len() - 1] == sorted[a];
                        assert(sorted[a] <= sorted[k as int]);
                    } else {
                        assert(unique@[i] == before[i]);
                        assert(unique@[j] == before[j]);
                    }
                }
                assert forall|q: int| 0 <= q < k + 1 implies unique@.contains(#[trigger] sorted[q]) by {
                    if q < k {
                        assert(before.contains(sorted[q]));
                        let i = choose|i: int| 0 <= i < before.len() && before[i] == sorted[q];
                        assert(unique@[i] == before[i]);
                    } else {
                        assert(unique@[unique@.len() - 1] == sorted[q]);
                    }
                }
                assert forall|i: int| 0 <= i < unique@.len() implies exists|q: int| 0 <= q < k + 1 && #[trigger] unique@[i] == sorted[q] by {
                    if i < before.len() {
                        assert(unique@[i] == before[i]);
                    }
                }
                assert(owners@ =~= unique@.map_values(|key: u128| (key >> 32u128) as usize));
                assert(targets@ =~= unique@.map_values(|key: u128| NetworkNodeId(key as u32)));
            }
        } else {
            proof {
                assert forall|q: int| 0 <= q < k + 1 implies unique@.contains(#[trigger] sorted[q]) by {
                    if q == k {
                        assert(unique@[unique@.len() - 1] == sorted[q]);
                    }
                }
            }
        }
        k += 1;
    }
    proof {
        assert forall|e: int|
            0 <= e < edges@.len() && direct_fast_edge(nodes@, #[trigger] edges@[e]) implies unique@.contains(
                pack_pair(edges@[e].source.0, edges@[e].target.0),
            ) by {
            let j0 = choose|j: int| 0 <= j < unsorted.len() && unsorted[j] == pack_pair(
                edges@[e].source.0,
                edges@[e].target.0,
            );
            assert(sorted.contains(unsorted[j0]));
            let j = choose|j: int| 0 <= j < sorted.len() && sorted[j] == unsorted[j0];
            assert(unique@.contains(sorted[j]));
        }
        assert forall|i: int| 0 <= i < unique@.len() implies fast_key(nodes@, edges@, #[trigger] unique@[i], edges@.len() as int) by {
            let a = choose|a: int| 0 <= a < sorted.len() && #[trigger] unique@[i] == sorted[a];
            assert(unsorted.contains(sorted[a]));
            let j = choose|j: int| 0 <= j < unsorted.len() && unsorted[j] == sorted[a];
            assert(unique@[i] == unsorted[j]);
        }
        assert(lists_fast_pairs(unique@, nodes@, edges@));
    }
    let offsets = csr_offsets(nodes.len(), owners.as_slice());
    (offsets, targets)
}

impl StaticNetwork {
    /// The number of nodes.
    pub open spec fn node_total(&self) -> int {
        self.nodes@.len() as int
    }

    /// The edges of node slot `index`.
    pub open spec fn edges_of(&self, index: int) -> Seq<NetworkEdge> {
        let node = self.nodes@[index];
        self.edges@.subrange(node.first_edge as int, node.first_edge + node.edge_count)
    }

    /// The input ports of node `index`.
    pub open spec fn inputs_of(&self, index: int) -> Seq<NetworkInputPort> {
        csr_slice(self.input_offsets@, self.input_ports@, index)
    }

    /// The fast-input nodes that node `index` feeds directly.
    pub open spec fn fast_targets_of(&self, index: int) -> Seq<NetworkNodeId> {
        csr_slice(self.direct_fast_target_offsets@, self.direct_fast_targets@, index)
    }

    /// Whether every node's edge range lies inside the edge table.
    pub open spec fn edge_ranges_in_bounds(&self) -> bool {
        forall|i: int|
            0 <= i < self.nodes@.len() ==> #[trigger] self.nodes@[i].first_edge
                + self.nodes@[i].edge_count <= self.edges@.len()
    }

    /// Whether an edge of node slot `index` is consistent.
    pub open spec fn edge_valid(&self, index: int, edge: NetworkEdge) -> bool {
        &&& edge.source == self.nodes@[index].id
        &&& edge.attenuation < 15
        &&& edge.target.0 < self.node_total()
        &&& match (edge.source_wire, edge.target_wire) {
            (Some(source), Some(target)) => source.0 < self.wires.count() && target.0
                < self.wires.count(),
            (None, None) => true,
            _ => false,
        }
    }

    /// Whether node slot `index` is consistent.
    pub open spec fn node_entry_valid(&self, index: int) -> bool {
        let node = self.nodes@[index];
        &&& node.id.0 == index
        &&& self.positions.has(node.pos)
        &&& self.positions.at(node.pos) == node.id
        &&& forall|k: int|
            0 <= k < self.edges_of(index).len() ==> self.edge_valid(
                index,
                #[trigger] self.edges_of(index)[k],
            )
    }

    /// Everything that `validate` checks.
    pub open spec fn well_formed(&self) -> bool {
        let n = self.node_total();
        &&& n == self.positions.size()
        &&& self.wires.well_formed()
        &&& csr_valid(self.input_offsets@, n, self.input_ports@.len() as int)
        &&& csr_valid(
            self.direct_fast_target_offsets@,
            n,
            self.direct_fast_targets@.len() as int,
        )
        &&& forall|i: int| 0 <= i < n ==> #[trigger] self.node_entry_valid(i)
    }

    /// Whether the direct fast targets name existing nodes.
    pub open spec fn fast_targets_in_range(&self) -> bool {
        forall|k: int|
            0 <= k < self.direct_fast_targets@.len() ==> (#[trigger] self.direct_fast_targets@[k]).0
                < self.node_total()
    }

    /// Orders the drafts, attaches to each node, in node order, the run of
    /// drafts that starts at its id, and indexes the direct edges into
    /// fast-input nodes by source.
    pub fn finalize(parts: NetworkBuildParts) -> (network: StaticNetwork)
        requires
            parts.nodes@.len() < u32::MAX,
            parts.drafts@.len() <= u32::MAX,
            forall|i: int| 0 <= i < parts.nodes@.len() ==> (#[trigger] parts.nodes@[i]).id.0 < parts.nodes@.len(),
        ensures
            network.nodes@.len() == parts.nodes@.len(),
            forall|i: int|
                0 <= i < parts.nodes@.len() ==> {
                    let before = #[trigger] parts.nodes@[i];
                    let after = network.nodes@[i];
                    &&& after.id == before.id
                    &&& after.pos == before.pos
                    &&& after.state == before.state
                    &&& after.kind == before.kind
                    &&& after.initial_output == before.initial_output
                    &&& after.constant_output == before.constant_output
                    &&& after.constant_input == before.constant_input
                    &&& after.comparator_far_input == before.comparator_far_input
                    &&& after.fast_input == before.fast_input
                },
            network.edge_ranges_in_bounds(),
            forall|i: int, k: int|
                0 <= i < network.nodes@.len() && 0 <= k < network.edges_of(i).len() ==> (
                #[trigger] network.edges_of(i)[k]).source == network.nodes@[i].id,
            network.edges@.len() <= parts.drafts@.len(),
            ids_in_order(parts.nodes@) ==> attaches_sorted_drafts(parts.drafts@, network.edges@, parts.nodes@.len() as int),
            ids_in_order(parts.nodes@) ==> (forall|k: int|
                0 <= k < parts.drafts@.len() ==> (#[trigger] parts.drafts@[k]).source.0 < parts.nodes@.len())
                ==> network.edges@.len() == parts.drafts@.len(),
            ids_in_order(parts.nodes@) ==> forall|i: int, k: int|
                0 <= i < network.nodes@.len() && 0 <= k < network.edges@.len() ==> ((#[trigger] network.nodes@[i].first_edge
                    <= k < network.nodes@[i].first_edge + network.nodes@[i].edge_count) <==> (#[trigger] network.edges@[k]).source.0
                    == i),
            forall|k: int|
                0 <= k < network.edges@.len() ==> parts.drafts@.to_multiset().count(
                    draft_of(#[trigger] network.edges@[k]),
                ) > 0,
            network.positions == parts.positions,
            network.input_offsets@ == parts.input_offsets@,
            network.input_ports@ == parts.input_ports@,
            network.wires == parts.wires,
            network.build_stats == parts.build_stats,
            csr_valid(
                network.direct_fast_target_offsets@,
                network.node_total(),
                network.direct_fast_targets@.len() as int,
            ),
            network.fast_targets_in_range(),
            indexes_fast_targets(network.nodes@, network.edges@, network.direct_fast_target_offsets@, network.direct_fast_targets@),
            index_ascending(&network.reverse_dependencies),
            forall|pos: BlockPos, id: NetworkNodeId|
                #[trigger] listed_at(&network.reverse_dependencies, pos).contains(id) <==> depends_on(
                    parts.position_dependencies@,
                    network.nodes@,
                    pos,
                    id,
                ),
    {
        let NetworkBuildParts {
            mut nodes,
            positions,
            mut drafts,
            position_dependencies,
            input_offsets,
            input_ports,
            wires,
            build_stats,
        } = parts;
        let ghost original = drafts@;
        sort_drafts(&mut drafts);
        proof {
            original.to_multiset_ensures();
            drafts@.to_multiset_ensures();
        }
        let ghost before = nodes@;
        let mut edges: Vec<NetworkEdge> = Vec::new();
        let mut cursor: usize = 0;
        let mut index: usize = 0;
        while index < nodes.len()
            invariant
                nodes@.len() == before.len(),
                nodes@.len() < u32::MAX,
                drafts@.len() <= u32::MAX,
                index <= nodes@.len(),
                cursor <= drafts@.len(),
                edges@.len() == cursor,
                forall|k: int| 0 <= k < cursor ==> #[trigger] edges@[k] == edge_of(drafts@[k]),
                forall|i: int|
                    0 <= i < nodes@.len() ==> {
                        let b = #[trigger] before[i];
                        let a = nodes@[i];
                        &&& a.id == b.id
                        &&& a.pos == b.pos
                        &&& a.state == b.state
                        &&& a.kind == b.kind
                        &&& a.initial_output == b.initial_output
                        &&& a.constant_output == b.constant_output
                        &&& a.constant_input == b.constant_input
                        &&& a.comparator_far_input == b.comparator_far_input
                        &&& a.fast_input == b.fast_input
                    },
                forall|i: int|
                    0 <= i < index ==> #[trigger] nodes@[i].first_edge + nodes@[i].edge_count
                        <= edges@.len(),
                forall|i: int, k: int|
                    0 <= i < index && #[trigger] nodes@[i].first_edge <= k < nodes@[i].first_edge
                        + nodes@[i].edge_count ==> (#[trigger] edges@[k]).source == nodes@[i].id,
                drafts_sorted(drafts@),
                forall|i: int| 0 <= i < before.len() ==> (#[trigger] before[i]).id.0 < before.len(),
                forall|k: int| 0 <= k < edges@.len() ==> (#[trigger] edges@[k]).source.0 < nodes@.len(),
                ids_in_order(before) ==> forall|k: int| 0 <= k < cursor ==> (#[trigger] drafts@[k]).source.0 < index,
                ids_in_order(before) ==> (cursor < drafts@.len() ==> drafts@[cursor as int].source.0 >= index),
                ids_in_order(before) ==> forall|i: int, k: int|
                    0 <= i < index && 0 <= k < edges@.len() ==> ((#[trigger] nodes@[i].first_edge <= k
                        < nodes@[i].first_edge + nodes@[i].edge_count) <==> (#[trigger] edges@[k]).source.0 == i),
            decreases nodes@.len() - index,
        {
            let first = edges.len() as u32;
            let node_id = nodes[index].id;
            proof {
                assert(before[index as int].id == nodes@[index as int].id);
            }
            let ghost edges_before = edges@;
            while cursor < drafts.len() && drafts[cursor].source == node_id
                invariant
                    edges_before.len() == first,
                    forall|k: int| 0 <= k < first ==> #[trigger] edges@[k] == edges_before[k],
                    drafts@.len() <= u32::MAX,
                    first <= cursor <= drafts@.len(),
                    edges@.len() == cursor,
                    forall|k: int| 0 <= k < cursor ==> #[trigger] edges@[k] == edge_of(drafts@[k]),
                    forall|k: int| first <= k < cursor ==> (#[trigger] edges@[k]).source == node_id,
                    drafts_sorted(drafts@),
                    node_id == nodes@[index as int].id,
                    node_id.0 < nodes@.len(),
                    forall|k: int| 0 <= k < first ==> (#[trigger] edges@[k]).source.0 < nodes@.len(),
                    index < nodes@.len(),
                    nodes@.len() == before.len(),
                    ids_in_order(before) ==> forall|k: int| 0 <= k < first ==> (#[trigger] drafts@[k]).source.0 < index,
                    ids_in_order(before) ==> forall|k: int| first <= k < cursor ==> (#[trigger] drafts@[k]).source.0 == index,
                    ids_in_order(before) ==> (first < drafts@.len() ==> drafts@[first as int].source.0 >= index),
                    ids_in_order(before) ==> nodes@[index as int].id.0 == index,
                decreases drafts@.len() - cursor,
            {
                let draft = drafts[cursor];
                edges.push(
                    NetworkEdge {
                        source: draft.source,
                        target: draft.target,
                        kind: draft.kind,
                        attenuation: draft.attenuation,
                        source_wire: draft.source_wire,
                        target_wire: draft.target_wire,
                    },
                );
                cursor += 1;
            }
            proof {
                if ids_in_order(before) && cursor < drafts@.len() {
                    assert(drafts@[cursor as int].source != node_id);
                    if first < cursor {
                        assert(draft_le(drafts@[cursor - 1], drafts@[cursor as int]));
                    } else {
                        assert(drafts@[first as int].source.0 >= index);
                    }
                }
            }
            let mut node = nodes[index];
            node.first_edge = first;
            node.edge_count = edges.len() as u32 - first;
            let ghost prior = nodes@;
            nodes.set(index, node);
            proof {
                assert forall|i: int, k: int|
                    0 <= i < index + 1 && #[trigger] nodes@[i].first_edge <= k < nodes@[i].first_edge
                        + nodes@[i].edge_count implies (#[trigger] edges@[k]).source == nodes@[i].id by {
                    if i < index {
                        assert(nodes@[i] == prior[i]);
                        assert(edges@[k] == edges_before[k]);
                    } else {
                        assert(prior[index as int].id == node_id);
                    }
                }
                assert forall|i: int|
                    0 <= i < index + 1 implies #[trigger] nodes@[i].first_edge + nodes@[i].edge_count
                        <= edges@.len() by {
                    if i < index {
                        assert(nodes@[i] == prior[i]);
                    }
                }
                if ids_in_order(before) {
                    assert forall|i: int, k: int|
                        0 <= i < index + 1 && 0 <= k < edges@.len() implies ((#[trigger] nodes@[i].first_edge <= k
                            < nodes@[i].first_edge + nodes@[i].edge_count) <==> (#[trigger] edges@[k]).source.0 == i) by {
                        if k < first {
                            assert(edges@[k] == edges_before[k]);
                            assert(edges@[k] == edge_of(drafts@[k]));
                            assert(drafts@[k].source.0 < index);
                        } else {
                            assert(edges@[k] == edge_of(drafts@[k]));
                            assert(drafts@[k].source.0 == index);
                        }
                        if i < index {
                            assert(nodes@[i] == prior[i]);
                            assert(prior[i].first_edge + prior[i].edge_count <= first);
                        }
                    }
                    assert forall|k: int| 0 <= k < cursor implies (#[trigger] drafts@[k]).source.0 < index + 1 by {
                        if k >= first {
                            assert(drafts@[k].source.0 == index);
                        }
                    }
                }
            }
            index += 1;
        }
        proof {
            if ids_in_order(before) {
                let n = nodes@.len() as int;
                assert forall|k: int| cursor <= k < drafts@.len() implies (#[trigger] drafts@[k]).source.0 >= n by {
                    if k > cursor {
                        assert(draft_le(drafts@[cursor as int], drafts@[k]));
                    }
                }
                assert(edges@.map_values(|e: NetworkEdge| draft_of(e)) =~= drafts@.take(cursor as int));
                assert(attaches_sorted_drafts(original, edges@, n)) by {
                    assert(drafts@.to_multiset() == original.to_multiset());
                }
                if forall|k: int| 0 <= k < original.len() ==> (#[trigger] original[k]).source.0 < n {
                    if cursor < drafts@.len() {
                        assert(drafts@.to_multiset().count(drafts@[cursor as int]) > 0) by {
                            drafts@.to_multiset_ensures();
                            assert(drafts@.contains(drafts@[cursor as int]));
                        }
                        original.to_multiset_ensures();
                        let j = choose|j: int| 0 <= j < original.len() && original[j] == drafts@[cursor as int];
                        assert(original[j].source.0 < n);
                    }
                }
            }
        }
        let (direct_fast_target_offsets, targets) = index_fast_targets(&nodes, &edges);
        let reverse_dependencies = index_dependencies(&position_dependencies, &nodes);
        StaticNetwork {
            nodes,
            edges,
            positions,
            input_offsets,
            input_ports,
            direct_fast_target_offsets,
            direct_fast_targets: targets,
            reverse_dependencies,
            wires,
            build_stats,
        }
    }

    /// The number of nodes.
    pub fn node_count(&self) -> (count: usize)
        ensures
            count == self.node_total(),
    {
        self.nodes.len()
    }

    /// The number of wires.
    pub fn wire_count(&self) -> (count: usize)
        ensures
            count == self.wires.count(),
    {
        self.wires.len()
    }

    /// The number of edges.
    pub fn edge_count(&self) -> (count: usize)
        ensures
            count == self.edges@.len(),
    {
        self.edges.len()
    }

    /// The build counters.
    pub fn build_stats(&self) -> (stats: NetworkBuildStats)
        ensures
            stats == self.build_stats,
    {
        self.build_stats
    }

    /// The node at `pos`, if any.
    pub fn node_id(&self, pos: BlockPos) -> (id: Option<NetworkNodeId>)
        ensures
            id == (if self.positions.has(pos) {
                Some(self.positions.at(pos))
            } else {
                None
            }),
    {
        match self.positions.get(pos) {
            Some(id) => Some(*id),
            None => None,
        }
    }

    /// The nodes that read block `pos`, ascending, once each.
    pub fn dependents(&self, pos: BlockPos) -> (ids: &[NetworkNodeId])
        ensures
            ids@ == listed_at(&self.reverse_dependencies, pos),
    {
        match self.reverse_dependencies.get(pos) {
            Some(ids) => ids.as_slice(),
            None => &[],
        }
    }

    /// The node with id `id`, if any.
    pub fn node(&self, id: NetworkNodeId) -> (node: Option<&NetworkNode>)
        ensures
            node == (if id.0 < self.node_total() {
                Some(&self.nodes@[id.0 as int])
            } else {
                None
            }),
    {
        if id.index() < self.nodes.len() {
            Some(&self.nodes[id.index()])
        } else {
            None
        }
    }

    /// Whether node `id` exists and reads its inputs on the fast path.
    pub fn node_has_fast_input(&self, id: NetworkNodeId) -> (result: bool)
        ensures
            result == (id.0 < self.node_total() && self.nodes@[id.0 as int].fast_input),
    {
        match self.node(id) {
            Some(node) => node.fast_input,
            None => false,
        }
    }

    /// The edges leaving node `id`.
    pub fn edges_from(&self, id: NetworkNodeId) -> (edges: &[NetworkEdge])
        requires
            self.edge_ranges_in_bounds(),
        ensures
            edges@ == (if id.0 < self.node_total() {
                self.edges_of(id.0 as int)
            } else {
                Seq::<NetworkEdge>::empty()
            }),
    {
        let total = self.edges.len();
        match self.node(id) {
            Some(node) => {
                let start = node.first_edge as usize;
                let end = start + node.edge_count as usize;
                &self.edges.as_slice()[start..end]
            },
            None => &[],
        }
    }

    /// The input ports of node `id`.
    pub fn input_ports(&self, id: NetworkNodeId) -> (ports: &[NetworkInputPort])
        requires
            csr_ranges_in_bounds(self.input_offsets@, self.input_ports@.len() as int),
        ensures
            ports@ == self.inputs_of(id.0 as int),
    {
        csr_range(self.input_offsets.as_slice(), self.input_ports.as_slice(), id.index())
    }

    /// The fast-input nodes that node `id` feeds directly.
    pub fn direct_fast_targets(&self, id: NetworkNodeId) -> (targets: &[NetworkNodeId])
        requires
            csr_ranges_in_bounds(
                self.direct_fast_target_offsets@,
                self.direct_fast_targets@.len() as int,
            ),
        ensures
            targets@ == self.fast_targets_of(id.0 as int),
    {
        csr_range(
            self.direct_fast_target_offsets.as_slice(),
            self.direct_fast_targets.as_slice(),
            id.index(),
        )
    }

    /// The wire at `pos`, if any.
    pub fn wire_id(&self, pos: BlockPos) -> (id: Option<NetworkWireId>)
        ensures
            id == (if self.wires.position_index.has(pos) {
                Some(self.wires.position_index.at(pos))
            } else {
                None
            }),
    {
        self.wires.id(pos)
    }

    /// The wire with id `id`, if the wire tables hold it.
    pub fn wire(&self, id: NetworkWireId) -> (wire: Option<NetworkWire>)
        ensures
            wire == (if id.0 < self.wires.positions@.len() && id.0 < self.wires.states@.len()
                && id.0 < self.wires.initial_power@.len() {
                Some(
                    NetworkWire {
                        id,
                        pos: self.wires.positions@[id.0 as int],
                        state: self.wires.states@[id.0 as int],
                        initial_power: self.wires.initial_power@[id.0 as int],
                    },
                )
            } else {
                None
            }),
    {
        self.wires.wire(id)
    }

    /// Checks the position index, the wire graph, the input and fast-target
    /// tables and every node's slot, position and edges.
    pub fn validate(&self) -> (result: Result<(), NetworkError>)
        requires
            self.edge_ranges_in_bounds(),
        ensures
            result.is_ok() == self.well_formed(),
    {
        let n = self.nodes.len();
        if n != self.positions.len() {
            return Err(NetworkError::PositionIndexSizeMismatch);
        }
        match self.wires.validate() {
            Ok(()) => {},
            Err(error) => {
                return Err(NetworkError::Wires(error));
            },
        }
        if !csr_is_valid(n, self.input_offsets.as_slice(), self.input_ports.len()) {
            return Err(NetworkError::InputCsrMismatch);
        }
        if !csr_is_valid(
            n,
            self.direct_fast_target_offsets.as_slice(),
            self.direct_fast_targets.len(),
        ) {
            return Err(NetworkError::DirectFastTargetCsrMismatch);
        }
        let mut index: usize = 0;
        while index < n
            invariant
                n == self.node_total(),
                index <= n,
                self.edge_ranges_in_bounds(),
                forall|i: int| 0 <= i < index ==> #[trigger] self.node_entry_valid(i),
            decreases n - index,
        {
            let checked = self.check_node_entry(index);
            if checked.is_err() {
                return checked;
            }
            index += 1;
        }
        Ok(())
    }

    /// Checks one node's slot, position and edges.
    fn check_node_entry(&self, index: usize) -> (result: Result<(), NetworkError>)
        requires
            index < self.node_total(),
            self.edge_ranges_in_bounds(),
        ensures
            result.is_ok() == self.node_entry_valid(index as int),
    {
        let node = &self.nodes[index];
        if node.id.index() != index {
            return Err(NetworkError::NodeIndexMismatch(node.pos));
        }
        match self.node_id(node.pos) {
            Some(found) => {
                if found != node.id {
                    return Err(NetworkError::NodeIndexMismatch(node.pos));
                }
            },
            None => {
                return Err(NetworkError::NodeIndexMismatch(node.pos));
            },
        }
        let edges = self.edges_from(node.id);
        let wire_count = self.wires.len();
        let mut k: usize = 0;
        while k < edges.len()
            invariant
                index < self.node_total(),
                self.nodes@[index as int].id.0 == index,
                *node == self.nodes@[index as int],
                edges@ == self.edges_of(index as int),
                wire_count == self.wires.count(),
                k <= edges@.len(),
                forall|q: int| 0 <= q < k ==> self.edge_valid(index as int, #[trigger] edges@[q]),
            decreases edges@.len() - k,
        {
            let edge = edges[k];
            if edge.source != node.id || edge.attenuation >= MAX_WIRE_ATTENUATION {
                return Err(NetworkError::EdgeRangeMismatch(node.pos));
            }
            if edge.target.index() >= self.nodes.len() {
                return Err(NetworkError::StaleEdgeTarget);
            }
            match (edge.source_wire, edge.target_wire) {
                (Some(source), Some(target)) => {
                    if source.index() >= wire_count || target.index() >= wire_count {
                        return Err(NetworkError::StaleWireEndpoint);
                    }
                },
                (None, None) => {},
                _ => {
                    return Err(NetworkError::IncompleteWireRoute);
                },
            }
            k += 1;
        }
        Ok(())
    }
}

} // verus!
