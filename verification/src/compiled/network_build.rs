//! Building the static network from a world snapshot: the nodes, the wire
//! graph, the input search, the edge passes and the wire read table.

use vstd::prelude::*;

use crate::compiled::csr::{csr_slice, csr_valid, lemma_csr_valid_in_bounds};
use crate::compiled::draft_order::{draft_le, EdgeDraft};
use crate::compiled::input_search::{
    comparator_side_edge, comparator_side_read, conductor_edge, conductor_read, conductor_side_read, repeater_side_edge, input_edge, input_read, node_block, node_facing, source_node_at,
    conductor_side_edge, search_inputs, searchable, target_dependency, target_edge, target_read, wire_read, wire_route,
    SearchOutput,
};
use crate::compiled::network::{NetworkBuildStats, NetworkNode, NetworkNodeKind};
use crate::compiled::node_build::{identify_nodes, node_kind_at, node_of_block};
use crate::compiled::passes::{
    carries_signal, clamp_edges, compile_input_ports, covers_route, same_route, deduplicate_edges, fold_constants, from_constant, lemma_fold_keeps_outputs,
    positions_ascending,
};
use crate::compiled::search::{at_distance, route_edge, within};
use crate::compiled::dependencies::listed_at;
use crate::compiled::draft_order::drafts_sorted;
use crate::compiled::network::NetworkEdge;
use crate::compiled::static_network::{attaches_sorted_drafts, draft_of, ids_in_order, NetworkBuildParts, StaticNetwork};
use crate::compiled::wire_build::{compile_wire_graph, lemma_subset_len};
use crate::compiled::world::WorldView;
use crate::position::{spec_relative, spec_update_order, BlockPos, Direction};
use crate::posmap::PositionMap;
use crate::compiled::dense::{unique_wires_below, DenseWireGraph};
use crate::compiled::input_search::WireTargetDraft;
use crate::compiled::links::{index_pairs, lemma_pairs_runs, packs_below};
use crate::compiled::network::{NetworkInputKind, NetworkNodeId, NetworkWireId, NetworkWireTarget};
use crate::compiled::static_network::{lemma_pack_pair, pack_pair};

verus! {

/// A wire read packed into one number: its node in the high bits, its kind
/// (side or not) in the lowest, so that codes order as the reads do.
pub open spec fn read_code(target: NetworkNodeId, kind: NetworkInputKind) -> u32 {
    (2 * target.0 + if kind == NetworkInputKind::Side {
        1int
    } else {
        0int
    }) as u32
}

/// The wire read that a code packs.
pub open spec fn read_of_code(code: u32) -> NetworkWireTarget {
    NetworkWireTarget {
        target: NetworkNodeId(code / 2),
        kind: if code % 2 == 1 {
            NetworkInputKind::Side
        } else {
            NetworkInputKind::Default
        },
    }
}

proof fn lemma_read_code(target: NetworkNodeId, kind: NetworkInputKind)
    requires
        target.0 < 0x8000_0000,
    ensures
        read_of_code(read_code(target, kind)) == (NetworkWireTarget { target, kind }),
{
}

proof fn lemma_code_read(code: u32)
    ensures
        read_code(read_of_code(code).target, read_of_code(code).kind) == code,
{
}

/// The key of a wire read: its wire in the high half, its code in the low.
pub open spec fn read_key(draft: WireTargetDraft) -> u128 {
    pack_pair(draft.wire.0, read_code(draft.target, draft.kind))
}

/// Installs the wire read table: each wire lists the nodes that read it,
/// with the input they read it at, once each, ordered by node and then by
/// input (the main input before the side). Returns the number of reads.
pub fn install_targets(graph: &mut DenseWireGraph, drafts: &Vec<WireTargetDraft>, node_count: usize) -> (ports: usize)
    requires
        old(graph).count() < u32::MAX,
        drafts@.len() <= u32::MAX,
        node_count <= 0x7FFF_FFFF,
        forall|q: int|
            0 <= q < drafts@.len() ==> (#[trigger] drafts@[q]).wire.0 < old(graph).count() && drafts@[q].target.0 < node_count,
    ensures
        *final(graph) == (DenseWireGraph {
            target_offsets: final(graph).target_offsets,
            targets: final(graph).targets,
            ..*old(graph)
        }),
        ports == final(graph).targets@.len(),
        csr_valid(final(graph).target_offsets@, old(graph).count(), final(graph).targets@.len() as int),
        forall|w: int, k: int|
            0 <= w < old(graph).count() && 0 <= k < csr_slice(final(graph).target_offsets@, final(graph).targets@, w).len()
                ==> (#[trigger] csr_slice(final(graph).target_offsets@, final(graph).targets@, w)[k]).target.0 < node_count,
        forall|w: int, a: int, b: int|
            0 <= w < old(graph).count() && 0 <= a < b < csr_slice(final(graph).target_offsets@, final(graph).targets@, w).len()
                ==> read_code(
                (#[trigger] csr_slice(final(graph).target_offsets@, final(graph).targets@, w)[a]).target,
                csr_slice(final(graph).target_offsets@, final(graph).targets@, w)[a].kind,
            ) < read_code(
                (#[trigger] csr_slice(final(graph).target_offsets@, final(graph).targets@, w)[b]).target,
                csr_slice(final(graph).target_offsets@, final(graph).targets@, w)[b].kind,
            ),
        forall|w: int, x: NetworkWireTarget|
            0 <= w < old(graph).count() ==> (#[trigger] csr_slice(final(graph).target_offsets@, final(graph).targets@, w).contains(x)
                <==> drafts@.contains(WireTargetDraft { wire: NetworkWireId(w as u32), target: x.target, kind: x.kind })),
{
    let n = graph.len();
    let m = node_count * 2;
    let mut keys: Vec<u128> = Vec::new();
    let mut q: usize = 0;
    while q < drafts.len()
        invariant
            q <= drafts@.len(),
            keys@.len() == q,
            node_count <= 0x7FFF_FFFF,
            forall|j: int|
                0 <= j < drafts@.len() ==> (#[trigger] drafts@[j]).wire.0 < n && drafts@[j].target.0 < node_count,
            forall|j: int| 0 <= j < q ==> #[trigger] keys@[j] == read_key(drafts@[j]),
        decreases drafts@.len() - q,
    {
        let draft = drafts[q];
        let bit: u32 = match draft.kind {
            NetworkInputKind::Side => 1,
            NetworkInputKind::Default => 0,
        };
        let code: u32 = draft.target.0 * 2 + bit;
        keys.push(((draft.wire.0 as u128) << 32u128) | (code as u128));
        proof {
            assert(code == read_code(draft.target, draft.kind));
        }
        q += 1;
    }
    let ghost all = keys@;
    proof {
        assert forall|j: int| 0 <= j < all.len() implies #[trigger] packs_below(all[j], n as int, m as int) by {
            let d = drafts@[j];
            assert(read_code(d.target, d.kind) < m);
            assert(pack_pair(d.wire.0, read_code(d.target, d.kind)) == all[j]);
        }
    }
    let (offsets, codes) = index_pairs(&mut keys, n, m);
    proof {
        lemma_pairs_runs(all, n as int, m as int, offsets@, codes@);
    }
    let mut targets: Vec<NetworkWireTarget> = Vec::new();
    let mut k: usize = 0;
    while k < codes.len()
        invariant
            k <= codes@.len(),
            targets@.len() == k,
            forall|i: int| 0 <= i < k ==> #[trigger] targets@[i] == read_of_code(codes@[i].0),
        decreases codes@.len() - k,
    {
        let code = codes[k].0;
        let kind = if code % 2 == 1 {
            NetworkInputKind::Side
        } else {
            NetworkInputKind::Default
        };
        targets.push(NetworkWireTarget { target: NetworkNodeId(code / 2), kind });
        k += 1;
    }
    let ghost old_graph = *graph;
    let ports = targets.len();
    graph.target_offsets = offsets;
    graph.targets = targets;
    proof {
        let ts = graph.targets@;
        let cs = codes@;
        let os = graph.target_offsets@;
        assert forall|w: int| 0 <= w < n implies #[trigger] csr_slice(os, ts, w) == csr_slice(os, cs, w).map_values(
            |c: NetworkWireId| read_of_code(c.0),
        ) by {
            assert(csr_slice(os, ts, w) =~= csr_slice(os, cs, w).map_values(|c: NetworkWireId| read_of_code(c.0)));
        }
        assert forall|w: int, k: int|
            0 <= w < n && 0 <= k < csr_slice(os, ts, w).len() implies (#[trigger] csr_slice(os, ts, w)[k]).target.0
            < node_count by {
            assert(csr_slice(os, cs, w)[k].0 < m);
        }
        assert forall|w: int, a: int, b: int|
            0 <= w < n && 0 <= a < b < csr_slice(os, ts, w).len() implies read_code(
                (#[trigger] csr_slice(os, ts, w)[a]).target,
                csr_slice(os, ts, w)[a].kind,
            ) < read_code((#[trigger] csr_slice(os, ts, w)[b]).target, csr_slice(os, ts, w)[b].kind) by {
            lemma_code_read(csr_slice(os, cs, w)[a].0);
            lemma_code_read(csr_slice(os, cs, w)[b].0);
        }
        assert forall|w: int, x: NetworkWireTarget|
            0 <= w < n implies (#[trigger] csr_slice(os, ts, w).contains(x) <==> drafts@.contains(
                WireTargetDraft { wire: NetworkWireId(w as u32), target: x.target, kind: x.kind },
            )) by {
            let want = WireTargetDraft { wire: NetworkWireId(w as u32), target: x.target, kind: x.kind };
            let slice = csr_slice(os, cs, w);
            if csr_slice(os, ts, w).contains(x) {
                let i = choose|i: int| 0 <= i < csr_slice(os, ts, w).len() && csr_slice(os, ts, w)[i] == x;
                let c = slice[i].0;
                assert(c < m);
                assert(slice.contains(NetworkWireId(c as u32)));
                assert(all.contains(pack_pair(w as u32, c)));
                let j = choose|j: int| 0 <= j < all.len() && all[j] == pack_pair(w as u32, c);
                let d = drafts@[j];
                lemma_pack_pair(w as u32, c);
                lemma_pack_pair(d.wire.0, read_code(d.target, d.kind));
                lemma_read_code(d.target, d.kind);
                assert(d == want);
                assert(drafts@.contains(want));
            }
            if drafts@.contains(want) {
                let j = choose|j: int| 0 <= j < drafts@.len() && drafts@[j] == want;
                let c = read_code(x.target, x.kind);
                assert(all[j] == pack_pair(w as u32, c));
                assert(all.contains(pack_pair(w as u32, c)));
                assert(c < m);
                assert(slice.contains(NetworkWireId(c as u32)));
                let i = choose|i: int| 0 <= i < slice.len() && slice[i] == NetworkWireId(c as u32);
                lemma_read_code(x.target, x.kind);
                assert(csr_slice(os, ts, w)[i] == x);
            }
        }
        assert(*graph =~= (DenseWireGraph { target_offsets: graph.target_offsets, targets: graph.targets, ..old_graph }));
    }
    ports
}


/// Each value that a filter keeps was there before.
pub proof fn lemma_filter_within<T>(s: Seq<T>, keep: spec_fn(T) -> bool)
    ensures
        forall|k: int| 0 <= k < s.filter(keep).len() ==> s.contains(#[trigger] s.filter(keep)[k]),
    decreases s.len(),
{
    reveal(Seq::filter);
    if s.len() > 0 {
        let rest = s.drop_last();
        lemma_filter_within(rest, keep);
        assert forall|k: int| 0 <= k < s.filter(keep).len() implies s.contains(#[trigger] s.filter(keep)[k]) by {
            if k < rest.filter(keep).len() {
                assert(s.filter(keep)[k] == rest.filter(keep)[k]);
                let i = choose|i: int| 0 <= i < rest.len() && rest[i] == rest.filter(keep)[k];
                assert(s[i] == rest[i]);
            } else {
                assert(s.filter(keep)[k] == s.last());
                assert(s[s.len() - 1] == s.last());
            }
        }
    }
}

/// Every route of the wire search starts at a node that powers a wire, and
/// ends at the node searched for.
proof fn lemma_route_ends(g: DenseWireGraph, n: int)
    requires
        forall|w: int, j: int|
            0 <= w < g.count() && 0 <= j < g.sources_of(w).len() ==> (#[trigger] g.sources_of(w)[j]).source.0 < n,
    ensures
        forall|pos: BlockPos, target: NetworkNodeId, kind: NetworkInputKind, e: EdgeDraft|
            #[trigger] wire_route(g, pos, target, kind, e) ==> e.source.0 < n && e.target == target,
{
    assert forall|pos: BlockPos, target: NetworkNodeId, kind: NetworkInputKind, e: EdgeDraft|
        #[trigger] wire_route(g, pos, target, kind, e) implies e.source.0 < n && e.target == target by {
        let root = g.position_index.at(pos);
        let (w, k, j) = choose|w: int, k: nat, j: int|
            0 <= w < g.count() && k < 15 && crate::compiled::search::at_distance(g, root.0 as int, w, k) && 0 <= j
                < g.sources_of(w).len() && e == route_edge(g, root, target, kind, w, k, j);
        assert(g.sources_of(w)[j].source.0 < n);
    }
}

/// A wire graph built from a world can be searched, and has no more wires
/// than the world has blocks.
proof fn lemma_wires_searchable(world: &WorldView, g: DenseWireGraph)
    requires
        world.valid(),
        world.order@.len() <= 0x0300_0000,
        positions_ascending(g.positions@),
        forall|p: BlockPos| #[trigger] g.positions@.contains(p) <==> world.wire_at(p),
        crate::compiled::links::indexes_positions(&g.position_index, g.positions@),
        csr_valid(g.dependent_offsets@, g.count(), g.dependents@.len() as int),
        csr_valid(g.predecessor_offsets@, g.count(), g.predecessors@.len() as int),
        csr_valid(g.source_offsets@, g.count(), g.sources@.len() as int),
        csr_valid(g.ordered_target_offsets@, g.count(), g.ordered_targets@.len() as int),
        csr_valid(g.observer_offsets@, g.count(), g.observers@.len() as int),
        g.target_offsets@ == seq![0u32],
        g.targets@.len() == 0,
        forall|t: int| 0 <= t < g.count() ==> unique_wires_below(#[trigger] g.predecessors_of(t), g.count()),
    ensures
        searchable(g),
        g.count() <= 0x0300_0000,
{
    let ps = g.positions@;
    let n = ps.len() as int;
    assert forall|p: BlockPos| #[trigger] ps.contains(p) implies world.order@.contains(p) by {}
    lemma_subset_len(ps, world.order@);
    lemma_csr_valid_in_bounds(g.dependent_offsets@, n, g.dependents@.len() as int);
    lemma_csr_valid_in_bounds(g.predecessor_offsets@, n, g.predecessors@.len() as int);
    lemma_csr_valid_in_bounds(g.source_offsets@, n, g.sources@.len() as int);
    lemma_csr_valid_in_bounds(g.ordered_target_offsets@, n, g.ordered_targets@.len() as int);
    lemma_csr_valid_in_bounds(g.observer_offsets@, n, g.observers@.len() as int);
    assert forall|t: int, k: int|
        0 <= t < g.count() && 0 <= k < g.predecessors_of(t).len() implies (#[trigger] g.predecessors_of(t)[k]).0
        < g.count() by {
        assert(unique_wires_below(g.predecessors_of(t), n));
    }
}

/// Every edge that the input search finds for node `t` comes from a node
/// and ends at `t`; every wire read it finds names a wire of the graph and
/// `t`.
proof fn lemma_search_ends(
    world: &WorldView,
    g: DenseWireGraph,
    nodes: Seq<NetworkNode>,
    node_positions: &PositionMap<NetworkNodeId>,
)
    requires
        nodes.len() <= u32::MAX,
        searchable(g),
        forall|p: BlockPos| #[trigger] node_positions.has(p) ==> node_positions.at(p).0 < nodes.len(),
        forall|w: int, j: int|
            0 <= w < g.count() && 0 <= j < g.sources_of(w).len() ==> (#[trigger] g.sources_of(w)[j]).source.0 < nodes.len(),
    ensures
        forall|t: int, e: EdgeDraft|
            0 <= t < nodes.len() && #[trigger] target_edge(world, g, nodes, node_positions, t, e) ==> e.source.0
                < nodes.len() && e.target == NetworkNodeId(t as u32),
        forall|t: int, r: WireTargetDraft|
            0 <= t < nodes.len() && #[trigger] target_read(world, g, nodes, t, r) ==> r.wire.0 < g.count() && r.target
                == NetworkNodeId(t as u32),
{
    reveal(target_edge);
    reveal(target_read);
    lemma_route_ends(g, nodes.len() as int);
    assert forall|pos: BlockPos, target: NetworkNodeId, kind: NetworkInputKind, r: WireTargetDraft|
        #[trigger] wire_read(g, pos, target, kind, r) implies r.wire.0 < g.count() && r.target == target by {}
    assert forall|t: int, e: EdgeDraft|
        0 <= t < nodes.len() && #[trigger] target_edge(world, g, nodes, node_positions, t, e) implies e.source.0
            < nodes.len() && e.target == NetworkNodeId(t as u32) by {
        assert forall|target: NetworkNodeId, cpos: BlockPos, kind: NetworkInputKind, d: int|
            #[trigger] conductor_side_edge(world, g, nodes, node_positions, target, cpos, kind, d, e) implies e.source.0
                < nodes.len() && e.target == target by {}
    }
}

/// Whether two wire graphs agree on what the input search reads of them:
/// their wires, position index, predecessors and sources.
pub open spec fn same_routes(g1: DenseWireGraph, g2: DenseWireGraph) -> bool {
    &&& g1.positions@ == g2.positions@
    &&& g1.position_index == g2.position_index
    &&& g1.predecessor_offsets@ == g2.predecessor_offsets@
    &&& g1.predecessors@ == g2.predecessors@
    &&& g1.source_offsets@ == g2.source_offsets@
    &&& g1.sources@ == g2.sources@
}

proof fn lemma_within_same(g1: DenseWireGraph, g2: DenseWireGraph, root: int, k: nat)
    requires
        same_routes(g1, g2),
    ensures
        forall|w: int| #[trigger] within(g1, root, w, k) == within(g2, root, w, k),
    decreases k,
{
    if k > 0 {
        let j = (k - 1) as nat;
        lemma_within_same(g1, g2, root, j);
        assert forall|v: int| #[trigger] g1.predecessors_of(v) == g2.predecessors_of(v) by {}
        assert forall|w: int| #[trigger] within(g1, root, w, k) == within(g2, root, w, k) by {
            assert(within(g1, root, w, j) == within(g2, root, w, j));
            assert(g1.count() == g2.count());
            if within(g1, root, w, k) && !within(g1, root, w, j) {
                let v = choose|v: int|
                    0 <= v < g1.count() && within(g1, root, v, j) && #[trigger] g1.predecessors_of(v).contains(
                        NetworkWireId(w as u32),
                    );
                assert(g2.predecessors_of(v) == g1.predecessors_of(v));
                assert(within(g2, root, v, j));
            }
            if within(g2, root, w, k) && !within(g2, root, w, j) {
                let v = choose|v: int|
                    0 <= v < g2.count() && within(g2, root, v, j) && #[trigger] g2.predecessors_of(v).contains(
                        NetworkWireId(w as u32),
                    );
                assert(g2.predecessors_of(v) == g1.predecessors_of(v));
                assert(within(g1, root, v, j));
            }
        }
    }
}

/// The input search finds the same routes and reads in two graphs that
/// agree on what it reads.
pub proof fn lemma_same_search(g1: DenseWireGraph, g2: DenseWireGraph)
    requires
        same_routes(g1, g2),
    ensures
        forall|pos: BlockPos, target: NetworkNodeId, kind: NetworkInputKind, e: EdgeDraft|
            #[trigger] wire_route(g1, pos, target, kind, e) == wire_route(g2, pos, target, kind, e),
        forall|pos: BlockPos, target: NetworkNodeId, kind: NetworkInputKind, r: WireTargetDraft|
            #[trigger] wire_read(g1, pos, target, kind, r) == wire_read(g2, pos, target, kind, r),
{
    assert forall|pos: BlockPos, target: NetworkNodeId, kind: NetworkInputKind, e: EdgeDraft|
        #[trigger] wire_route(g1, pos, target, kind, e) == wire_route(g2, pos, target, kind, e) by {
        if g1.position_index.has(pos) {
            let root = g1.position_index.at(pos);
            assert forall|w: int, k: nat| #[trigger] at_distance(g1, root.0 as int, w, k) == at_distance(g2, root.0 as int, w, k) by {
                lemma_within_same(g1, g2, root.0 as int, k);
                if k > 0 {
                    lemma_within_same(g1, g2, root.0 as int, (k - 1) as nat);
                }
            }
            assert forall|w: int| #[trigger] g1.sources_of(w) == g2.sources_of(w) by {}
            if wire_route(g1, pos, target, kind, e) {
                let (w, k, j) = choose|w: int, k: nat, j: int|
                    0 <= w < g1.count() && k < 15 && at_distance(g1, root.0 as int, w, k) && 0 <= j < g1.sources_of(w).len()
                        && e == route_edge(g1, root, target, kind, w, k, j);
                assert(g2.sources_of(w) == g1.sources_of(w));
                assert(at_distance(g2, root.0 as int, w, k));
                assert(route_edge(g2, root, target, kind, w, k, j) == e);
            }
            if wire_route(g2, pos, target, kind, e) {
                let (w, k, j) = choose|w: int, k: nat, j: int|
                    0 <= w < g2.count() && k < 15 && at_distance(g2, root.0 as int, w, k) && 0 <= j < g2.sources_of(w).len()
                        && e == route_edge(g2, root, target, kind, w, k, j);
                assert(g2.sources_of(w) == g1.sources_of(w));
                assert(at_distance(g1, root.0 as int, w, k));
                assert(route_edge(g1, root, target, kind, w, k, j) == e);
            }
        }
    }
}

/// Whether two node tables agree on what the input search reads of them:
/// the position, kind and far input of each node.
pub open spec fn same_nodes(nodes1: Seq<NetworkNode>, nodes2: Seq<NetworkNode>) -> bool {
    &&& nodes1.len() == nodes2.len()
    &&& forall|i: int|
        0 <= i < nodes1.len() ==> (#[trigger] nodes1[i]).pos == nodes2[i].pos && nodes1[i].kind == nodes2[i].kind
            && nodes1[i].comparator_far_input == nodes2[i].comparator_far_input
}

/// The input search finds the same edges, reads and dependencies over
/// graphs and node tables that agree on what it reads.
pub proof fn lemma_same_targets(
    world: &WorldView,
    g1: DenseWireGraph,
    g2: DenseWireGraph,
    nodes1: Seq<NetworkNode>,
    nodes2: Seq<NetworkNode>,
    node_positions: &PositionMap<NetworkNodeId>,
)
    requires
        same_routes(g1, g2),
        same_nodes(nodes1, nodes2),
        forall|p: BlockPos| #[trigger] node_positions.has(p) ==> node_positions.at(p).0 < nodes1.len(),
    ensures
        forall|t: int, e: EdgeDraft|
            0 <= t < nodes1.len() ==> (#[trigger] target_edge(world, g1, nodes1, node_positions, t, e) == target_edge(
                world,
                g2,
                nodes2,
                node_positions,
                t,
                e,
            )),
        forall|t: int, r: WireTargetDraft|
            0 <= t < nodes1.len() ==> (#[trigger] target_read(world, g1, nodes1, t, r) == target_read(world, g2, nodes2, t, r)),
        forall|t: int, x: (BlockPos, NetworkNodeId)|
            0 <= t < nodes1.len() ==> (#[trigger] target_dependency(world, nodes1, t, x) == target_dependency(world, nodes2, t, x)),
{
    reveal(target_edge);
    reveal(target_read);
    reveal(target_dependency);
    lemma_same_search(g1, g2);
    assert forall|p: BlockPos| #[trigger] source_node_at(nodes1, node_positions, p) == source_node_at(nodes2, node_positions, p) by {
        if node_positions.has(p) {
            assert(nodes1[node_positions.at(p).0 as int].kind == nodes2[node_positions.at(p).0 as int].kind);
        }
    }
    assert forall|target: NetworkNodeId, cpos: BlockPos, kind: NetworkInputKind, d: int, e: EdgeDraft|
        #[trigger] conductor_side_edge(world, g1, nodes1, node_positions, target, cpos, kind, d, e) == conductor_side_edge(
            world,
            g2,
            nodes2,
            node_positions,
            target,
            cpos,
            kind,
            d,
            e,
        ) by {}
    assert forall|target: NetworkNodeId, cpos: BlockPos, kind: NetworkInputKind, d: int, r: WireTargetDraft|
        #[trigger] conductor_side_read(world, g1, target, cpos, kind, d, r) == conductor_side_read(world, g2, target, cpos, kind, d, r) by {}
    assert forall|target: NetworkNodeId, ipos: BlockPos, direction: Direction, kind: NetworkInputKind, unconditional: bool, e: EdgeDraft|
        #[trigger] input_edge(world, g1, nodes1, node_positions, target, ipos, direction, kind, unconditional, e) == input_edge(
            world,
            g2,
            nodes2,
            node_positions,
            target,
            ipos,
            direction,
            kind,
            unconditional,
            e,
        ) by {
        if input_edge(world, g1, nodes1, node_positions, target, ipos, direction, kind, unconditional, e) && !input_edge(world, g2, nodes2, node_positions, target, ipos, direction, kind, unconditional, e) {
            if conductor_edge(world, g1, nodes1, node_positions, target, ipos, kind, e) {
                let d = choose|d: int| 0 <= d < 6 && #[trigger] conductor_side_edge(world, g1, nodes1, node_positions, target, ipos, kind, d, e);
                assert(conductor_side_edge(world, g2, nodes2, node_positions, target, ipos, kind, d, e));
            }
        }
        if input_edge(world, g2, nodes2, node_positions, target, ipos, direction, kind, unconditional, e) && !input_edge(world, g1, nodes1, node_positions, target, ipos, direction, kind, unconditional, e) {
            if conductor_edge(world, g2, nodes2, node_positions, target, ipos, kind, e) {
                let d = choose|d: int| 0 <= d < 6 && #[trigger] conductor_side_edge(world, g2, nodes2, node_positions, target, ipos, kind, d, e);
                assert(conductor_side_edge(world, g1, nodes1, node_positions, target, ipos, kind, d, e));
            }
        }
    }
    assert forall|target: NetworkNodeId, ipos: BlockPos, direction: Direction, kind: NetworkInputKind, unconditional: bool, r: WireTargetDraft|
        #[trigger] input_read(world, g1, target, ipos, direction, kind, unconditional, r) == input_read(
            world,
            g2,
            target,
            ipos,
            direction,
            kind,
            unconditional,
            r,
        ) by {
        if input_read(world, g1, target, ipos, direction, kind, unconditional, r) && !input_read(world, g2, target, ipos, direction, kind, unconditional, r) {
            if conductor_read(world, g1, target, ipos, kind, r) {
                let d = choose|d: int| 0 <= d < 6 && #[trigger] conductor_side_read(world, g1, target, ipos, kind, d, r);
                assert(conductor_side_read(world, g2, target, ipos, kind, d, r));
            }
        }
        if input_read(world, g2, target, ipos, direction, kind, unconditional, r) && !input_read(world, g1, target, ipos, direction, kind, unconditional, r) {
            if conductor_read(world, g2, target, ipos, kind, r) {
                let d = choose|d: int| 0 <= d < 6 && #[trigger] conductor_side_read(world, g2, target, ipos, kind, d, r);
                assert(conductor_side_read(world, g1, target, ipos, kind, d, r));
            }
        }
    }
    assert forall|target: NetworkNodeId, spos: BlockPos, direction: Direction, e: EdgeDraft|
        #[trigger] comparator_side_edge(world, g1, nodes1, node_positions, target, spos, direction, e) == comparator_side_edge(
            world,
            g2,
            nodes2,
            node_positions,
            target,
            spos,
            direction,
            e,
        ) by {}
    assert forall|target: NetworkNodeId, spos: BlockPos, direction: Direction, e: EdgeDraft|
        #[trigger] repeater_side_edge(world, nodes1, node_positions, target, spos, direction, e) == repeater_side_edge(
            world,
            nodes2,
            node_positions,
            target,
            spos,
            direction,
            e,
        ) by {}
    assert forall|target: NetworkNodeId, spos: BlockPos, r: WireTargetDraft|
        #[trigger] comparator_side_read(world, g1, target, spos, r) == comparator_side_read(world, g2, target, spos, r) by {}
    assert forall|t: int, e: EdgeDraft|
        0 <= t < nodes1.len() implies (#[trigger] target_edge(world, g1, nodes1, node_positions, t, e) == target_edge(
            world,
            g2,
            nodes2,
            node_positions,
            t,
            e,
        )) by {
        let pos = nodes1[t].pos;
        let target = NetworkNodeId(t as u32);
        assert(nodes1[t].pos == nodes2[t].pos && nodes1[t].kind == nodes2[t].kind);
        assert(node_block(world, nodes1[t]) == node_block(world, nodes2[t]));
        assert(node_facing(world, nodes1[t]) == node_facing(world, nodes2[t]));
        if nodes1[t].kind == NetworkNodeKind::Consumer {
            if target_edge(world, g1, nodes1, node_positions, t, e) {
                let d = choose|d: int| 0 <= d < 6 && #[trigger] input_edge(world, g1, nodes1, node_positions, target, spec_relative(pos, spec_update_order(d)), spec_update_order(d), NetworkInputKind::Default, false, e);
                assert(input_edge(world, g2, nodes2, node_positions, target, spec_relative(pos, spec_update_order(d)), spec_update_order(d), NetworkInputKind::Default, false, e));
            }
            if target_edge(world, g2, nodes2, node_positions, t, e) {
                let d = choose|d: int| 0 <= d < 6 && #[trigger] input_edge(world, g2, nodes2, node_positions, target, spec_relative(pos, spec_update_order(d)), spec_update_order(d), NetworkInputKind::Default, false, e);
                assert(input_edge(world, g1, nodes1, node_positions, target, spec_relative(pos, spec_update_order(d)), spec_update_order(d), NetworkInputKind::Default, false, e));
            }
        }
    }
    assert forall|t: int, r: WireTargetDraft|
        0 <= t < nodes1.len() implies (#[trigger] target_read(world, g1, nodes1, t, r) == target_read(world, g2, nodes2, t, r)) by {
        let pos = nodes1[t].pos;
        let target = NetworkNodeId(t as u32);
        assert(nodes1[t].pos == nodes2[t].pos && nodes1[t].kind == nodes2[t].kind);
        assert(node_block(world, nodes1[t]) == node_block(world, nodes2[t]));
        assert(node_facing(world, nodes1[t]) == node_facing(world, nodes2[t]));
        if nodes1[t].kind == NetworkNodeKind::Consumer {
            if target_read(world, g1, nodes1, t, r) {
                let d = choose|d: int| 0 <= d < 6 && #[trigger] input_read(world, g1, target, spec_relative(pos, spec_update_order(d)), spec_update_order(d), NetworkInputKind::Default, false, r);
                assert(input_read(world, g2, target, spec_relative(pos, spec_update_order(d)), spec_update_order(d), NetworkInputKind::Default, false, r));
            }
            if target_read(world, g2, nodes2, t, r) {
                let d = choose|d: int| 0 <= d < 6 && #[trigger] input_read(world, g2, target, spec_relative(pos, spec_update_order(d)), spec_update_order(d), NetworkInputKind::Default, false, r);
                assert(input_read(world, g1, target, spec_relative(pos, spec_update_order(d)), spec_update_order(d), NetworkInputKind::Default, false, r));
            }
        }
    }
    assert forall|t: int, x: (BlockPos, NetworkNodeId)|
        0 <= t < nodes1.len() implies (#[trigger] target_dependency(world, nodes1, t, x) == target_dependency(world, nodes2, t, x)) by {
        assert(nodes1[t].pos == nodes2[t].pos && nodes1[t].kind == nodes2[t].kind);
        assert(node_block(world, nodes1[t]) == node_block(world, nodes2[t]));
        assert(node_facing(world, nodes1[t]) == node_facing(world, nodes2[t]));
    }
}

/// The wire graph of a world for the nodes found in it, with what the
/// input search needs of it.
fn build_wires(
    world: &WorldView,
    nodes: &Vec<NetworkNode>,
    node_positions: &PositionMap<NetworkNodeId>,
) -> (g: DenseWireGraph)
    requires
        world.valid(),
        world.order@.len() <= 0x0300_0000,
        nodes@.len() <= 0x0300_0000,
        ids_in_order(nodes@),
        forall|p: BlockPos| #[trigger] node_positions.has(p) ==> node_positions.at(p).0 < nodes@.len(),
    ensures
        searchable(g),
        g.count() <= 0x0300_0000,
        positions_ascending(g.positions@),
        forall|p: BlockPos| #[trigger] g.positions@.contains(p) <==> world.wire_at(p),
        forall|w: int, j: int|
            0 <= w < g.count() && 0 <= j < g.sources_of(w).len() ==> (#[trigger] g.sources_of(w)[j]).source.0 < nodes@.len(),
{
    let g = compile_wire_graph(world, nodes, node_positions);
    proof {
        lemma_wires_searchable(world, g);
        assert forall|w: int, j: int|
            0 <= w < g.count() && 0 <= j < g.sources_of(w).len() implies (#[trigger] g.sources_of(w)[j]).source.0
            < nodes@.len() by {
            assert(crate::compiled::wire_build::sources_ascending(g.sources_of(w), nodes@.len() as int));
        }
    }
    g
}

/// The input search of every node, with the edges that carry no signal
/// dropped and, of each route, only its least draft kept.
fn found_routes(
    world: &WorldView,
    g: &DenseWireGraph,
    nodes: &Vec<NetworkNode>,
    node_positions: &PositionMap<NetworkNodeId>,
) -> (out: SearchOutput)
    requires
        nodes@.len() <= u32::MAX,
        searchable(*g),
        forall|p: BlockPos| #[trigger] node_positions.has(p) ==> node_positions.at(p).0 < nodes@.len(),
        forall|w: int, j: int|
            0 <= w < g.count() && 0 <= j < g.sources_of(w).len() ==> (#[trigger] g.sources_of(w)[j]).source.0 < nodes@.len(),
    ensures
        forall|k: int|
            0 <= k < out.edges@.len() ==> carries_signal(#[trigger] out.edges@[k]) && exists|t: int|
                0 <= t < nodes@.len() && #[trigger] target_edge(world, *g, nodes@, node_positions, t, out.edges@[k]),
        forall|k: int|
            0 <= k < out.edges@.len() ==> (#[trigger] out.edges@[k]).source.0 < nodes@.len() && out.edges@[k].target.0
                < nodes@.len(),
        forall|i: int, j: int| 0 <= i < j < out.edges@.len() ==> !same_route(out.edges@[i], out.edges@[j]),
        forall|e: EdgeDraft|
            carries_signal(e) && (exists|t: int| 0 <= t < nodes@.len() && #[trigger] target_edge(world, *g, nodes@, node_positions, t, e))
                ==> #[trigger] covers_route(out.edges@, e),
        forall|r: WireTargetDraft|
            #[trigger] out.wire_targets@.contains(r) <==> exists|t: int|
                0 <= t < nodes@.len() && #[trigger] target_read(world, *g, nodes@, t, r),
        forall|q: int|
            0 <= q < out.wire_targets@.len() ==> (#[trigger] out.wire_targets@[q]).wire.0 < g.count()
                && out.wire_targets@[q].target.0 < nodes@.len(),
        forall|x: (BlockPos, NetworkNodeId)|
            #[trigger] out.dependencies@.contains(x) <==> exists|t: int|
                0 <= t < nodes@.len() && #[trigger] target_dependency(world, nodes@, t, x),
{
    let found = search_inputs(world, g, nodes, node_positions);
    proof {
        lemma_search_ends(world, *g, nodes@, node_positions);
    }
    let SearchOutput { edges: mut drafts, dependencies, wire_targets } = found;
    let ghost searched = drafts@;
    clamp_edges(&mut drafts);
    let ghost clamped = drafts@;
    proof {
        lemma_filter_within(searched, |edge: EdgeDraft| carries_signal(edge));
        assert forall|k: int| 0 <= k < clamped.len() implies carries_signal(#[trigger] clamped[k]) by {
            searched.lemma_filter_pred(|edge: EdgeDraft| carries_signal(edge), k);
        }
    }
    deduplicate_edges(&mut drafts);
    proof {
        assert forall|k: int| 0 <= k < drafts@.len() implies carries_signal(#[trigger] drafts@[k]) && exists|t: int|
            0 <= t < nodes@.len() && #[trigger] target_edge(world, *g, nodes@, node_positions, t, drafts@[k]) by {
            assert(clamped.contains(drafts@[k]));
            let j = choose|j: int| 0 <= j < clamped.len() && clamped[j] == drafts@[k];
            assert(searched.contains(clamped[j]));
        }
        assert forall|e: EdgeDraft|
            carries_signal(e) && (exists|t: int| 0 <= t < nodes@.len() && #[trigger] target_edge(world, *g, nodes@, node_positions, t, e))
                implies #[trigger] covers_route(drafts@, e) by {
            assert(searched.contains(e));
            let i = choose|i: int| 0 <= i < searched.len() && searched[i] == e;
            searched.lemma_filter_contains(|edge: EdgeDraft| carries_signal(edge), i);
            let k = choose|k: int| 0 <= k < clamped.len() && clamped[k] == e;
            assert(covers_route(drafts@, clamped[k]));
        }
        assert forall|q: int| 0 <= q < wire_targets@.len() implies (#[trigger] wire_targets@[q]).wire.0 < g.count()
            && wire_targets@[q].target.0 < nodes@.len() by {
            assert(wire_targets@.contains(wire_targets@[q]));
        }
    }
    SearchOutput { edges: drafts, dependencies, wire_targets }
}

/// What the input search found over the graph and nodes it ran on holds of
/// the graph with its read table installed and of the nodes with their
/// constant inputs folded: each edge kept is a found route that carries a
/// signal from a node with no constant output, each such route is covered,
/// and the reads and dependencies are those of the search.
proof fn lemma_parts_found(
    world: &WorldView,
    g1: DenseWireGraph,
    g2: DenseWireGraph,
    nodes1: Seq<NetworkNode>,
    nodes2: Seq<NetworkNode>,
    node_positions: &PositionMap<NetworkNodeId>,
    kept: Seq<EdgeDraft>,
    drafts: Seq<EdgeDraft>,
    reads: Seq<WireTargetDraft>,
    dependencies: Seq<(BlockPos, NetworkNodeId)>,
)
    requires
        same_routes(g1, g2),
        nodes2.len() == nodes1.len(),
        forall|i: int|
            0 <= i < nodes1.len() ==> #[trigger] nodes2[i] == (NetworkNode { constant_input: nodes2[i].constant_input, ..nodes1[i] }),
        forall|p: BlockPos| #[trigger] node_positions.has(p) ==> node_positions.at(p).0 < nodes1.len(),
        forall|k: int|
            0 <= k < kept.len() ==> carries_signal(#[trigger] kept[k]) && exists|t: int|
                0 <= t < nodes1.len() && #[trigger] target_edge(world, g1, nodes1, node_positions, t, kept[k]),
        forall|k: int| 0 <= k < kept.len() ==> (#[trigger] kept[k]).source.0 < nodes1.len(),
        forall|e: EdgeDraft|
            carries_signal(e) && (exists|t: int| 0 <= t < nodes1.len() && #[trigger] target_edge(world, g1, nodes1, node_positions, t, e))
                ==> #[trigger] covers_route(kept, e),
        drafts == kept.filter(|edge: EdgeDraft| !from_constant(nodes1, edge)),
        forall|r: WireTargetDraft|
            #[trigger] reads.contains(r) <==> exists|t: int| 0 <= t < nodes1.len() && #[trigger] target_read(world, g1, nodes1, t, r),
        forall|w: int, x: NetworkWireTarget|
            0 <= w < g1.count() ==> (#[trigger] csr_slice(g2.target_offsets@, g2.targets@, w).contains(x) <==> reads.contains(
                WireTargetDraft { wire: NetworkWireId(w as u32), target: x.target, kind: x.kind },
            )),
        forall|x: (BlockPos, NetworkNodeId)|
            #[trigger] dependencies.contains(x) <==> exists|t: int|
                0 <= t < nodes1.len() && #[trigger] target_dependency(world, nodes1, t, x),
    ensures
        forall|k: int|
            0 <= k < drafts.len() ==> {
                let e = #[trigger] drafts[k];
                &&& carries_signal(e)
                &&& e.source.0 < nodes2.len()
                &&& nodes2[e.source.0 as int].constant_output is None
                &&& exists|t: int| 0 <= t < nodes2.len() && #[trigger] target_edge(world, g2, nodes2, node_positions, t, e)
            },
        forall|e: EdgeDraft|
            carries_signal(e) && e.source.0 < nodes2.len() && nodes2[e.source.0 as int].constant_output is None
                && (exists|t: int| 0 <= t < nodes2.len() && #[trigger] target_edge(world, g2, nodes2, node_positions, t, e))
                ==> #[trigger] covers_route(drafts, e),
        forall|w: int, x: NetworkWireTarget|
            0 <= w < g2.count() ==> (#[trigger] csr_slice(g2.target_offsets@, g2.targets@, w).contains(x) <==> exists|t: int|
                0 <= t < nodes2.len() && #[trigger] target_read(
                    world,
                    g2,
                    nodes2,
                    t,
                    WireTargetDraft { wire: NetworkWireId(w as u32), target: x.target, kind: x.kind },
                )),
        forall|x: (BlockPos, NetworkNodeId)|
            #[trigger] dependencies.contains(x) <==> exists|t: int|
                0 <= t < nodes2.len() && #[trigger] target_dependency(world, nodes2, t, x),
{
    assert forall|i: int| 0 <= i < nodes1.len() implies (#[trigger] nodes1[i]).pos == nodes2[i].pos && nodes1[i].kind
        == nodes2[i].kind && nodes1[i].comparator_far_input == nodes2[i].comparator_far_input by {
        assert(nodes2[i] == (NetworkNode { constant_input: nodes2[i].constant_input, ..nodes1[i] }));
    }
    lemma_same_targets(world, g1, g2, nodes1, nodes2, node_positions);
    lemma_filter_within(kept, |edge: EdgeDraft| !from_constant(nodes1, edge));
    assert forall|k: int| 0 <= k < drafts.len() implies {
        let e = #[trigger] drafts[k];
        &&& carries_signal(e)
        &&& e.source.0 < nodes2.len()
        &&& nodes2[e.source.0 as int].constant_output is None
        &&& exists|t: int| 0 <= t < nodes2.len() && #[trigger] target_edge(world, g2, nodes2, node_positions, t, e)
    } by {
        let e = drafts[k];
        assert(kept.contains(e));
        kept.lemma_filter_pred(|edge: EdgeDraft| !from_constant(nodes1, edge), k);
        let j = choose|j: int| 0 <= j < kept.len() && kept[j] == e;
        let t = choose|t: int| 0 <= t < nodes1.len() && #[trigger] target_edge(world, g1, nodes1, node_positions, t, kept[j]);
        assert(target_edge(world, g2, nodes2, node_positions, t, e));
        assert(nodes2[e.source.0 as int] == (NetworkNode { constant_input: nodes2[e.source.0 as int].constant_input, ..nodes1[e.source.0 as int] }));
    }
    assert forall|e: EdgeDraft|
        carries_signal(e) && e.source.0 < nodes2.len() && nodes2[e.source.0 as int].constant_output is None && (exists|t: int|
            0 <= t < nodes2.len() && #[trigger] target_edge(world, g2, nodes2, node_positions, t, e)) implies #[trigger] covers_route(
        drafts,
        e,
    ) by {
        let t = choose|t: int| 0 <= t < nodes2.len() && #[trigger] target_edge(world, g2, nodes2, node_positions, t, e);
        assert(target_edge(world, g1, nodes1, node_positions, t, e));
        assert(covers_route(kept, e));
        let i = choose|i: int| 0 <= i < kept.len() && same_route(#[trigger] kept[i], e) && draft_le(kept[i], e);
        assert(nodes2[e.source.0 as int] == (NetworkNode { constant_input: nodes2[e.source.0 as int].constant_input, ..nodes1[e.source.0 as int] }));
        assert(!from_constant(nodes1, kept[i]));
        kept.lemma_filter_contains(|edge: EdgeDraft| !from_constant(nodes1, edge), i);
        let j = choose|j: int| 0 <= j < drafts.len() && drafts[j] == kept[i];
        assert(same_route(drafts[j], e) && draft_le(drafts[j], e));
    }
    assert forall|w: int, x: NetworkWireTarget|
        0 <= w < g2.count() implies (#[trigger] csr_slice(g2.target_offsets@, g2.targets@, w).contains(x) <==> exists|t: int|
            0 <= t < nodes2.len() && #[trigger] target_read(
                world,
                g2,
                nodes2,
                t,
                WireTargetDraft { wire: NetworkWireId(w as u32), target: x.target, kind: x.kind },
            )) by {
        let r = WireTargetDraft { wire: NetworkWireId(w as u32), target: x.target, kind: x.kind };
        if reads.contains(r) {
            let t = choose|t: int| 0 <= t < nodes1.len() && #[trigger] target_read(world, g1, nodes1, t, r);
            assert(target_read(world, g2, nodes2, t, r));
        }
        if exists|t: int| 0 <= t < nodes2.len() && #[trigger] target_read(world, g2, nodes2, t, r) {
            let t = choose|t: int| 0 <= t < nodes2.len() && #[trigger] target_read(world, g2, nodes2, t, r);
            assert(target_read(world, g1, nodes1, t, r));
        }
    }
    assert forall|x: (BlockPos, NetworkNodeId)|
        #[trigger] dependencies.contains(x) <==> exists|t: int|
            0 <= t < nodes2.len() && #[trigger] target_dependency(world, nodes2, t, x) by {
        if dependencies.contains(x) {
            let t = choose|t: int| 0 <= t < nodes1.len() && #[trigger] target_dependency(world, nodes1, t, x);
            assert(target_dependency(world, nodes2, t, x));
        }
        if exists|t: int| 0 <= t < nodes2.len() && #[trigger] target_dependency(world, nodes2, t, x) {
            let t = choose|t: int| 0 <= t < nodes2.len() && #[trigger] target_dependency(world, nodes2, t, x);
            assert(target_dependency(world, nodes1, t, x));
        }
    }
}

/// The parts of the static network of a world snapshot: its nodes by
/// ascending position; its wire graph; the input search of every node; the
/// edges that still carry a signal, the least draft of each route, with
/// those from constant sources folded into their targets; the input ports;
/// and the wire read table. Nothing where the edges or wire reads found
/// outnumber what 32-bit offsets count.
#[verifier::spinoff_prover]
#[verifier::rlimit(60)]
fn network_parts(world: &WorldView) -> (parts: Option<NetworkBuildParts>)
    requires
        world.valid(),
        world.order@.len() <= 0x0300_0000,
    ensures
        parts matches Some(parts) ==> {
            &&& parts.nodes@.len() < u32::MAX
            &&& parts.drafts@.len() <= u32::MAX
            &&& ids_in_order(parts.nodes@)
            &&& positions_ascending(parts.nodes@.map_values(|node: NetworkNode| node.pos))
            &&& forall|i: int|
                0 <= i < parts.nodes@.len() ==> node_kind_at(world, #[trigger] parts.nodes@[i].pos) is Some
                    && parts.nodes@[i] == (NetworkNode {
                    constant_input: parts.nodes@[i].constant_input,
                    ..node_of_block(world, parts.nodes@[i].pos, i, node_kind_at(world, parts.nodes@[i].pos)->0)
                })
            &&& forall|p: BlockPos| #[trigger] parts.positions.has(p) <==> node_kind_at(world, p) is Some
            &&& forall|p: BlockPos|
                #[trigger] parts.positions.has(p) ==> parts.positions.at(p).0 < parts.nodes@.len()
                    && parts.nodes@[parts.positions.at(p).0 as int].pos == p
            &&& positions_ascending(parts.wires.positions@)
            &&& forall|p: BlockPos| #[trigger] parts.wires.positions@.contains(p) <==> world.wire_at(p)
            &&& forall|k: int|
                0 <= k < parts.drafts@.len() ==> {
                    let e = #[trigger] parts.drafts@[k];
                    &&& carries_signal(e)
                    &&& e.source.0 < parts.nodes@.len()
                    &&& parts.nodes@[e.source.0 as int].constant_output is None
                    &&& exists|t: int|
                        0 <= t < parts.nodes@.len() && #[trigger] target_edge(world, parts.wires, parts.nodes@, &parts.positions, t, e)
                }
            &&& forall|e: EdgeDraft|
                carries_signal(e) && e.source.0 < parts.nodes@.len() && parts.nodes@[e.source.0 as int].constant_output is None
                    && (exists|t: int|
                    0 <= t < parts.nodes@.len() && #[trigger] target_edge(world, parts.wires, parts.nodes@, &parts.positions, t, e))
                    ==> #[trigger] covers_route(parts.drafts@, e)
            &&& forall|w: int, x: NetworkWireTarget|
                0 <= w < parts.wires.count() ==> (#[trigger] csr_slice(parts.wires.target_offsets@, parts.wires.targets@, w).contains(x)
                    <==> exists|t: int|
                    0 <= t < parts.nodes@.len() && #[trigger] target_read(
                        world,
                        parts.wires,
                        parts.nodes@,
                        t,
                        WireTargetDraft { wire: NetworkWireId(w as u32), target: x.target, kind: x.kind },
                    ))
            &&& forall|x: (BlockPos, NetworkNodeId)|
                #[trigger] parts.position_dependencies@.contains(x) <==> exists|t: int|
                    0 <= t < parts.nodes@.len() && #[trigger] target_dependency(world, parts.nodes@, t, x)
        },
{
    let (mut nodes, positions) = identify_nodes(world);
    proof {
        let ps = nodes@.map_values(|node: NetworkNode| node.pos);
        assert forall|p: BlockPos| #[trigger] ps.contains(p) implies world.order@.contains(p) by {
            let i = choose|i: int| 0 <= i < ps.len() && ps[i] == p;
            assert(node_kind_at(world, nodes@[i].pos) is Some);
        }
        lemma_subset_len(ps, world.order@);
        assert forall|i: int| 0 <= i < nodes@.len() implies (#[trigger] nodes@[i]).id.0 == i by {
            assert(node_kind_at(world, nodes@[i].pos) is Some);
        }
    }
    let mut wires = build_wires(world, &nodes, &positions);
    let found = found_routes(world, &wires, &nodes, &positions);
    let SearchOutput { edges: mut drafts, dependencies, wire_targets } = found;
    let ghost identified = nodes@;
    let ghost kept = drafts@;
    fold_constants(&mut nodes, &mut drafts);
    proof {
        lemma_fold_keeps_outputs(identified, kept);
        lemma_filter_within(kept, |edge: EdgeDraft| !from_constant(identified, edge));
        assert forall|k: int| 0 <= k < drafts@.len() implies (#[trigger] drafts@[k]).target.0 < nodes@.len() by {
            assert(kept.contains(drafts@[k]));
        }
        assert(nodes@.map_values(|node: NetworkNode| node.pos) =~= identified.map_values(|node: NetworkNode| node.pos));
    }
    if drafts.len() > u32::MAX as usize || wire_targets.len() > u32::MAX as usize {
        return None;
    }
    let (input_offsets, input_ports) = compile_input_ports(nodes.len(), drafts.as_slice());
    let searches = wire_targets.len();
    let ghost searched_graph = wires;
    let ports = install_targets(&mut wires, &wire_targets, nodes.len());
    proof {
        assert(same_routes(searched_graph, wires));
        lemma_parts_found(world, searched_graph, wires, identified, nodes@, &positions, kept, drafts@, wire_targets@, dependencies@);
    }
    let build_stats = NetworkBuildStats {
        wire_neighbor_scans: wires.len(),
        wire_neighbor_entries: wires.dependents.len(),
        wire_source_ports: wires.sources.len(),
        wire_target_ports: ports,
        semantic_wire_searches: searches,
        semantic_wire_visits: 0,
    };
    Some(
        NetworkBuildParts {
            nodes,
            positions,
            drafts,
            position_dependencies: dependencies,
            input_offsets,
            input_ports,
            wires,
            build_stats,
        },
    )
}

/// What holds of the parts of a network holds of the network laid over
/// them: its edges are the drafts, sorted, and its nodes keep what the
/// search reads of them.
proof fn lemma_network_found(
    world: &WorldView,
    g: DenseWireGraph,
    nodes1: Seq<NetworkNode>,
    nodes2: Seq<NetworkNode>,
    node_positions: &PositionMap<NetworkNodeId>,
    drafts: Seq<EdgeDraft>,
    edges: Seq<NetworkEdge>,
    recorded: Seq<(BlockPos, NetworkNodeId)>,
)
    requires
        nodes2.len() == nodes1.len(),
        forall|i: int|
            0 <= i < nodes1.len() ==> {
                let before = #[trigger] nodes1[i];
                let after = nodes2[i];
                &&& after.id == before.id
                &&& after.pos == before.pos
                &&& after.kind == before.kind
                &&& after.constant_output == before.constant_output
                &&& after.comparator_far_input == before.comparator_far_input
            },
        ids_in_order(nodes1),
        forall|p: BlockPos| #[trigger] node_positions.has(p) ==> node_positions.at(p).0 < nodes1.len(),
        forall|k: int| 0 <= k < drafts.len() ==> (#[trigger] drafts[k]).source.0 < nodes1.len(),
        attaches_sorted_drafts(drafts, edges, nodes1.len() as int),
        edges.len() == drafts.len(),
        forall|k: int| 0 <= k < edges.len() ==> drafts.to_multiset().count(draft_of(#[trigger] edges[k])) > 0,
        forall|k: int|
            0 <= k < drafts.len() ==> {
                let e = #[trigger] drafts[k];
                &&& carries_signal(e)
                &&& e.source.0 < nodes1.len()
                &&& nodes1[e.source.0 as int].constant_output is None
                &&& exists|t: int| 0 <= t < nodes1.len() && #[trigger] target_edge(world, g, nodes1, node_positions, t, e)
            },
        forall|e: EdgeDraft|
            carries_signal(e) && e.source.0 < nodes1.len() && nodes1[e.source.0 as int].constant_output is None
                && (exists|t: int| 0 <= t < nodes1.len() && #[trigger] target_edge(world, g, nodes1, node_positions, t, e))
                ==> #[trigger] covers_route(drafts, e),
    ensures
        forall|k: int|
            0 <= k < edges.len() ==> {
                let e = draft_of(#[trigger] edges[k]);
                &&& carries_signal(e)
                &&& e.source.0 < nodes2.len()
                &&& nodes2[e.source.0 as int].constant_output is None
                &&& exists|t: int| 0 <= t < nodes2.len() && #[trigger] target_edge(world, g, nodes2, node_positions, t, e)
            },
        forall|e: EdgeDraft|
            carries_signal(e) && e.source.0 < nodes2.len() && nodes2[e.source.0 as int].constant_output is None
                && (exists|t: int| 0 <= t < nodes2.len() && #[trigger] target_edge(world, g, nodes2, node_positions, t, e))
                ==> exists|k: int|
                0 <= k < edges.len() && same_route(#[trigger] draft_of(edges[k]), e) && draft_le(draft_of(edges[k]), e),
        forall|t: int, x: (BlockPos, NetworkNodeId)|
            0 <= t < nodes1.len() ==> (#[trigger] target_dependency(world, nodes1, t, x) == target_dependency(world, nodes2, t, x)),
        forall|t: int, r: WireTargetDraft|
            0 <= t < nodes1.len() ==> (#[trigger] target_read(world, g, nodes1, t, r) == target_read(world, g, nodes2, t, r)),
{
    assert(same_routes(g, g));
    assert(same_nodes(nodes1, nodes2));
    lemma_same_targets(world, g, g, nodes1, nodes2, node_positions);
    drafts.to_multiset_ensures();
    assert forall|k: int| 0 <= k < edges.len() implies {
        let e = draft_of(#[trigger] edges[k]);
        &&& carries_signal(e)
        &&& e.source.0 < nodes2.len()
        &&& nodes2[e.source.0 as int].constant_output is None
        &&& exists|t: int| 0 <= t < nodes2.len() && #[trigger] target_edge(world, g, nodes2, node_positions, t, e)
    } by {
        let e = draft_of(edges[k]);
        assert(drafts.contains(e));
        let j = choose|j: int| 0 <= j < drafts.len() && drafts[j] == e;
        let t = choose|t: int| 0 <= t < nodes1.len() && #[trigger] target_edge(world, g, nodes1, node_positions, t, drafts[j]);
        assert(target_edge(world, g, nodes2, node_positions, t, e));
    }
    let sorted = choose|sorted: Seq<EdgeDraft>| {
        &&& sorted.to_multiset() == drafts.to_multiset()
        &&& drafts_sorted(sorted)
        &&& edges.len() <= sorted.len()
        &&& edges.map_values(|e: NetworkEdge| draft_of(e)) == sorted.take(edges.len() as int)
        &&& forall|k: int| 0 <= k < edges.len() ==> (#[trigger] sorted[k]).source.0 < nodes1.len() as int
        &&& forall|k: int| edges.len() <= k < sorted.len() ==> (#[trigger] sorted[k]).source.0 >= nodes1.len() as int
    };
    sorted.to_multiset_ensures();
    assert(sorted.len() == drafts.len()) by {
        assert(sorted.to_multiset().len() == drafts.to_multiset().len());
    }
    assert forall|e: EdgeDraft|
        carries_signal(e) && e.source.0 < nodes2.len() && nodes2[e.source.0 as int].constant_output is None && (exists|t: int|
            0 <= t < nodes2.len() && #[trigger] target_edge(world, g, nodes2, node_positions, t, e)) implies exists|k: int|
        0 <= k < edges.len() && same_route(#[trigger] draft_of(edges[k]), e) && draft_le(draft_of(edges[k]), e) by {
        let t = choose|t: int| 0 <= t < nodes2.len() && #[trigger] target_edge(world, g, nodes2, node_positions, t, e);
        assert(target_edge(world, g, nodes1, node_positions, t, e));
        assert(covers_route(drafts, e));
        let i = choose|i: int| 0 <= i < drafts.len() && same_route(#[trigger] drafts[i], e) && draft_le(drafts[i], e);
        assert(drafts.contains(drafts[i]));
        assert(drafts.to_multiset().count(drafts[i]) > 0);
        assert(sorted.contains(drafts[i]));
        let k = choose|k: int| 0 <= k < sorted.len() && sorted[k] == drafts[i];
        assert(sorted.take(edges.len() as int)[k] == sorted[k]);
        assert(edges.map_values(|e: NetworkEdge| draft_of(e))[k] == draft_of(edges[k]));
    }
}

/// Builds the static network of a world snapshot from its parts: the node
/// edge ranges, fast targets and dependency index laid over them. Returns
/// nothing where the edges or wire reads found outnumber what 32-bit
/// offsets count.
pub fn compile_network(world: &WorldView) -> (network: Option<StaticNetwork>)
    requires
        world.valid(),
        world.order@.len() <= 0x0300_0000,
    ensures
        network matches Some(network) ==> {
            &&& positions_ascending(network.nodes@.map_values(|node: NetworkNode| node.pos))
            &&& forall|i: int|
                0 <= i < network.nodes@.len() ==> node_kind_at(world, #[trigger] network.nodes@[i].pos) is Some
                    && network.nodes@[i] == (NetworkNode {
                    constant_input: network.nodes@[i].constant_input,
                    first_edge: network.nodes@[i].first_edge,
                    edge_count: network.nodes@[i].edge_count,
                    ..node_of_block(world, network.nodes@[i].pos, i, node_kind_at(world, network.nodes@[i].pos)->0)
                })
            &&& forall|p: BlockPos| #[trigger] network.positions.has(p) <==> node_kind_at(world, p) is Some
            &&& forall|p: BlockPos|
                #[trigger] network.positions.has(p) ==> network.positions.at(p).0 < network.nodes@.len()
                    && network.nodes@[network.positions.at(p).0 as int].pos == p
            &&& positions_ascending(network.wires.positions@)
            &&& forall|p: BlockPos| #[trigger] network.wires.positions@.contains(p) <==> world.wire_at(p)
            &&& forall|k: int|
                0 <= k < network.edges@.len() ==> {
                    let e = draft_of(#[trigger] network.edges@[k]);
                    &&& carries_signal(e)
                    &&& e.source.0 < network.nodes@.len()
                    &&& network.nodes@[e.source.0 as int].constant_output is None
                    &&& exists|t: int|
                        0 <= t < network.nodes@.len() && #[trigger] target_edge(
                            world,
                            network.wires,
                            network.nodes@,
                            &network.positions,
                            t,
                            e,
                        )
                }
            &&& forall|e: EdgeDraft|
                carries_signal(e) && e.source.0 < network.nodes@.len() && network.nodes@[e.source.0 as int].constant_output
                    is None && (exists|t: int|
                    0 <= t < network.nodes@.len() && #[trigger] target_edge(
                        world,
                        network.wires,
                        network.nodes@,
                        &network.positions,
                        t,
                        e,
                    )) ==> exists|k: int|
                    0 <= k < network.edges@.len() && same_route(#[trigger] draft_of(network.edges@[k]), e) && draft_le(
                        draft_of(network.edges@[k]),
                        e,
                    )
            &&& forall|w: int, x: NetworkWireTarget|
                0 <= w < network.wires.count() ==> (#[trigger] csr_slice(network.wires.target_offsets@, network.wires.targets@, w).contains(x)
                    <==> exists|t: int|
                    0 <= t < network.nodes@.len() && #[trigger] target_read(
                        world,
                        network.wires,
                        network.nodes@,
                        t,
                        WireTargetDraft { wire: NetworkWireId(w as u32), target: x.target, kind: x.kind },
                    ))
            &&& forall|pos: BlockPos, id: NetworkNodeId|
                #[trigger] listed_at(&network.reverse_dependencies, pos).contains(id) <==> {
                    ||| exists|t: int| 0 <= t < network.nodes@.len() && #[trigger] target_dependency(world, network.nodes@, t, (pos, id))
                    ||| exists|i: int|
                        0 <= i < network.nodes@.len() && #[trigger] network.nodes@[i].id == id && (network.nodes@[i].pos == pos
                            || network.nodes@[i].comparator_far_input == Some(pos))
                }
        },
{
    match network_parts(world) {
        Some(parts) => {
            let ghost before = parts.nodes@;
            proof {
                assert forall|i: int| 0 <= i < parts.nodes@.len() implies (#[trigger] parts.nodes@[i]).id.0 < parts.nodes@.len() by {}
            }
            let ghost drafts = parts.drafts@;
            let ghost parts_wires = parts.wires;
            let ghost parts_positions = parts.positions;
            let ghost recorded = parts.position_dependencies@;
            proof {
                assert forall|k: int| 0 <= k < drafts.len() implies (#[trigger] drafts[k]).source.0 < before.len() by {}
            }
            let network = StaticNetwork::finalize(parts);
            proof {
                lemma_network_found(world, parts_wires, before, network.nodes@, &parts_positions, drafts, network.edges@, recorded);
                assert forall|w: int, x: NetworkWireTarget|
                    0 <= w < network.wires.count() implies (#[trigger] csr_slice(network.wires.target_offsets@, network.wires.targets@, w).contains(x)
                        <==> exists|t: int|
                        0 <= t < network.nodes@.len() && #[trigger] target_read(
                            world,
                            network.wires,
                            network.nodes@,
                            t,
                            WireTargetDraft { wire: NetworkWireId(w as u32), target: x.target, kind: x.kind },
                        )) by {
                    let r = WireTargetDraft { wire: NetworkWireId(w as u32), target: x.target, kind: x.kind };
                    if exists|t: int| 0 <= t < before.len() && #[trigger] target_read(world, parts_wires, before, t, r) {
                        let t = choose|t: int| 0 <= t < before.len() && #[trigger] target_read(world, parts_wires, before, t, r);
                        assert(target_read(world, network.wires, network.nodes@, t, r));
                    }
                    if exists|t: int| 0 <= t < network.nodes@.len() && #[trigger] target_read(world, network.wires, network.nodes@, t, r) {
                        let t = choose|t: int| 0 <= t < network.nodes@.len() && #[trigger] target_read(world, network.wires, network.nodes@, t, r);
                        assert(target_read(world, parts_wires, before, t, r));
                    }
                }
                assert forall|pos: BlockPos, id: NetworkNodeId|
                    #[trigger] listed_at(&network.reverse_dependencies, pos).contains(id) <==> {
                        ||| exists|t: int| 0 <= t < network.nodes@.len() && #[trigger] target_dependency(world, network.nodes@, t, (pos, id))
                        ||| exists|i: int|
                            0 <= i < network.nodes@.len() && #[trigger] network.nodes@[i].id == id && (network.nodes@[i].pos == pos
                                || network.nodes@[i].comparator_far_input == Some(pos))
                    } by {
                    if recorded.contains((pos, id)) {
                        let t = choose|t: int| 0 <= t < before.len() && #[trigger] target_dependency(world, before, t, (pos, id));
                        assert(target_dependency(world, network.nodes@, t, (pos, id)));
                    }
                    if exists|t: int| 0 <= t < network.nodes@.len() && #[trigger] target_dependency(world, network.nodes@, t, (pos, id)) {
                        let t = choose|t: int| 0 <= t < network.nodes@.len() && #[trigger] target_dependency(world, network.nodes@, t, (pos, id));
                        assert(target_dependency(world, before, t, (pos, id)));
                        assert(recorded.contains((pos, id)));
                    }
                }
            }
            proof {
                assert(network.nodes@.map_values(|node: NetworkNode| node.pos) =~= before.map_values(|node: NetworkNode| node.pos));
                assert forall|i: int| 0 <= i < network.nodes@.len() implies node_kind_at(world, #[trigger] network.nodes@[i].pos) is Some
                    && network.nodes@[i] == (NetworkNode {
                    constant_input: network.nodes@[i].constant_input,
                    first_edge: network.nodes@[i].first_edge,
                    edge_count: network.nodes@[i].edge_count,
                    ..node_of_block(world, network.nodes@[i].pos, i, node_kind_at(world, network.nodes@[i].pos)->0)
                }) by {
                    assert(network.nodes@[i].pos == before[i].pos);
                    assert(node_kind_at(world, before[i].pos) is Some);
                }
                assert forall|p: BlockPos| #[trigger] network.positions.has(p) implies network.positions.at(p).0 < network.nodes@.len()
                    && network.nodes@[network.positions.at(p).0 as int].pos == p by {
                    assert(before[network.positions.at(p).0 as int].pos == p);
                }
            }
            Some(network)
        },
        None => None,
    }
}

} // verus!
