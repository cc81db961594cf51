//! When the compiled network must be rebuilt after block changes: changes
//! that keep every topology signature only update states, a few topology
//! changes rebuild locally, and many rebuild everything.

use vstd::prelude::*;

use crate::compiled::frontend::{NodeKind, TopologySignature};
use crate::compiled::closure::{reached, wire_closure, WireView, CLOSURE_STEPS};
use crate::compiled::graph::CompiledGraph;
use crate::compiled::passes::{insert_position, positions_ascending};
use crate::position::{spec_relative, spec_update_order, BlockPos, BlockStateId, Direction};

verus! {

/// More distinct topology positions than this rebuild the whole graph.
pub const FULL_RECOMPILE_CHANGE_LIMIT: usize = 4096;

/// A local rebuild may touch at most this percentage of the compiled nodes.
pub const LOCAL_RECOMPILE_PERCENT: usize = 25;

/// How far along wires a topology change reaches when a local rebuild
/// collects the affected positions.
pub const WIRE_CLOSURE_DISTANCE: u8 = 15;

/// What one block change does to the compiled graph.
#[derive(Clone, Copy, Debug, PartialEq, Eq, Structural)]
pub enum ChangeEffect {
    /// The topology signature stays; the new state is recorded unless the
    /// block is a wire, whose power the network tracks itself.
    StateOnly { record: bool },
    /// The topology signature changes; the dense network is affected unless
    /// the block stays a wire.
    Topology { network: bool },
}

/// How the compiled graph answers a batch of changes.
#[derive(Clone, Copy, Debug, PartialEq, Eq, Structural)]
pub enum PlanKind {
    /// Only states change.
    StateOnly,
    /// The changed positions are rebuilt without a wider search.
    LocalTopologyOnly,
    /// The affected positions must be collected to decide.
    CollectAffected,
    /// Everything is rebuilt.
    Full,
}

/// Whether a signature belongs to a wire.
pub open spec fn is_wire_signature(signature: Option<TopologySignature>) -> bool {
    match signature {
        Some(signature) => signature.node_kind == NodeKind::Wire,
        None => false,
    }
}

/// What a change from a block with signature `old` to one with signature `new` does.
pub open spec fn spec_change_effect(old: Option<TopologySignature>, new: Option<TopologySignature>) -> ChangeEffect {
    if old == new {
        ChangeEffect::StateOnly { record: !is_wire_signature(old) }
    } else {
        ChangeEffect::Topology { network: !(is_wire_signature(old) && is_wire_signature(new)) }
    }
}

fn wire_signature(signature: &Option<TopologySignature>) -> (result: bool)
    ensures
        result == is_wire_signature(*signature),
{
    match signature {
        Some(signature) => signature.node_kind == NodeKind::Wire,
        None => false,
    }
}

/// What a change from a block with signature `old` to one with signature `new` does.
pub fn change_effect(old: Option<TopologySignature>, new: Option<TopologySignature>) -> (effect: ChangeEffect)
    ensures
        effect == spec_change_effect(old, new),
{
    let same = match (old, new) {
        (Some(a), Some(b)) => a == b,
        (None, None) => true,
        _ => false,
    };
    if same {
        ChangeEffect::StateOnly { record: !wire_signature(&old) }
    } else {
        ChangeEffect::Topology { network: !(wire_signature(&old) && wire_signature(&new)) }
    }
}

/// The plan before any affected position is collected, from the number of
/// distinct topology positions and of those that reach the dense network.
pub open spec fn spec_early_plan(topology_positions: nat, network_positions: nat, dense_network_active: bool) -> PlanKind {
    if topology_positions == 0 {
        PlanKind::StateOnly
    } else if topology_positions > FULL_RECOMPILE_CHANGE_LIMIT {
        PlanKind::Full
    } else if dense_network_active && network_positions == 0 {
        PlanKind::LocalTopologyOnly
    } else {
        PlanKind::CollectAffected
    }
}

/// The plan before any affected position is collected: no topology change
/// only updates states, more than the change limit rebuilds everything, and
/// with the dense network active and untouched the changed positions are
/// rebuilt alone.
pub fn early_plan(topology_positions: usize, network_positions: usize, dense_network_active: bool) -> (kind: PlanKind)
    ensures
        kind == spec_early_plan(topology_positions as nat, network_positions as nat, dense_network_active),
{
    if topology_positions == 0 {
        PlanKind::StateOnly
    } else if topology_positions > FULL_RECOMPILE_CHANGE_LIMIT {
        PlanKind::Full
    } else if dense_network_active && network_positions == 0 {
        PlanKind::LocalTopologyOnly
    } else {
        PlanKind::CollectAffected
    }
}

/// `value * factor`, or `usize::MAX` when that does not fit.
pub open spec fn saturating_product(value: nat, factor: nat) -> nat {
    if value * factor > usize::MAX {
        usize::MAX as nat
    } else {
        value * factor
    }
}

/// `value * factor`, or `usize::MAX` when that does not fit.
fn saturating_times(value: usize, factor: usize) -> (product: usize)
    ensures
        product == saturating_product(value as nat, factor as nat),
{
    match value.checked_mul(factor) {
        Some(product) => product,
        None => usize::MAX,
    }
}

/// Whether, once `affected` positions are collected over a graph of
/// `node_count` nodes, the rebuild is a full one: they exceed the local
/// share of a nonempty graph.
pub open spec fn spec_rebuilds_fully(affected: nat, node_count: nat) -> bool {
    node_count > 0 && saturating_product(affected, 100) > saturating_product(node_count, LOCAL_RECOMPILE_PERCENT as nat)
}

/// Whether `affected` collected positions over a graph of `node_count`
/// nodes call for a full rebuild: more than the local share of a nonempty
/// graph, with saturating products.
pub fn rebuilds_fully(affected: usize, node_count: usize) -> (full: bool)
    ensures
        full == spec_rebuilds_fully(affected as nat, node_count as nat),
{
    node_count > 0 && saturating_times(affected, 100) > saturating_times(node_count, LOCAL_RECOMPILE_PERCENT)
}

/// A batch with no topology change never rebuilds; one with more topology
/// positions than the limit always rebuilds everything, whatever reaches the
/// dense network.
pub proof fn law_plan_thresholds(topology_positions: nat, network_positions: nat, dense_network_active: bool)
    ensures
        topology_positions == 0 ==> spec_early_plan(topology_positions, network_positions, dense_network_active)
            == PlanKind::StateOnly,
        topology_positions > FULL_RECOMPILE_CHANGE_LIMIT ==> spec_early_plan(
            topology_positions,
            network_positions,
            dense_network_active,
        ) == PlanKind::Full,
        1 <= topology_positions <= FULL_RECOMPILE_CHANGE_LIMIT ==> spec_early_plan(
            topology_positions,
            network_positions,
            dense_network_active,
        ) != PlanKind::Full,
{
}

/// The affected share switches to a full rebuild only above a quarter of
/// the nodes: at most a quarter stays local, anything more rebuilds, for
/// counts whose products fit a machine word.
pub proof fn law_affected_share(affected: nat, node_count: nat)
    requires
        node_count > 0,
        affected * 100 <= usize::MAX,
        node_count * 25 <= usize::MAX,
    ensures
        spec_rebuilds_fully(affected, node_count) <==> affected * 4 > node_count,
{
}

/// One block change, with the topology signatures of its old and new state.
#[derive(Clone, Copy, Debug, PartialEq, Eq, Structural)]
pub struct SignedChange {
    pub pos: BlockPos,
    pub new_state: BlockStateId,
    pub old_signature: Option<TopologySignature>,
    pub new_signature: Option<TopologySignature>,
}

/// What a batch of changes asks of the compiled graph: the states to record,
/// in order, and the positions whose topology changes, with those among
/// them that reach the dense network, ascending and once each.
pub struct ChangeBatch {
    pub state_changes: Vec<(BlockPos, BlockStateId)>,
    pub topology_positions: Vec<BlockPos>,
    pub network_topology_positions: Vec<BlockPos>,
}

/// The effect of a change.
pub open spec fn effect_of(change: SignedChange) -> ChangeEffect {
    spec_change_effect(change.old_signature, change.new_signature)
}

/// The states that a sequence of changes records, in order: the new state
/// of every change that keeps its signature and is no wire.
pub open spec fn recorded_states(changes: Seq<SignedChange>) -> Seq<(BlockPos, BlockStateId)>
    decreases changes.len(),
{
    if changes.len() == 0 {
        Seq::empty()
    } else {
        let before = recorded_states(changes.drop_last());
        let last = changes.last();
        if effect_of(last) == (ChangeEffect::StateOnly { record: true }) {
            before.push((last.pos, last.new_state))
        } else {
            before
        }
    }
}

/// Whether some change at `pos` changes its topology, and, when `network`
/// is set, one that reaches the dense network.
pub open spec fn topology_changes_at(changes: Seq<SignedChange>, pos: BlockPos, network: bool) -> bool {
    exists|i: int|
        0 <= i < changes.len() && #[trigger] changes[i].pos == pos && match effect_of(changes[i]) {
            ChangeEffect::Topology { network: reaches } => !network || reaches,
            _ => false,
        }
}

/// Sorts a batch of changes by what they ask of the compiled graph.
pub fn sort_changes(changes: &[SignedChange]) -> (batch: ChangeBatch)
    ensures
        batch.state_changes@ == recorded_states(changes@),
        positions_ascending(batch.topology_positions@),
        forall|pos: BlockPos| #[trigger] batch.topology_positions@.contains(pos) <==> topology_changes_at(changes@, pos, false),
        positions_ascending(batch.network_topology_positions@),
        forall|pos: BlockPos| #[trigger] batch.network_topology_positions@.contains(pos) <==> topology_changes_at(
            changes@,
            pos,
            true,
        ),
{
    let mut state_changes: Vec<(BlockPos, BlockStateId)> = Vec::new();
    let mut topology: Vec<BlockPos> = Vec::new();
    let mut network: Vec<BlockPos> = Vec::new();
    let mut k: usize = 0;
    while k < changes.len()
        invariant
            k <= changes@.len(),
            state_changes@ == recorded_states(changes@.take(k as int)),
            positions_ascending(topology@),
            positions_ascending(network@),
            forall|pos: BlockPos| #[trigger] topology@.contains(pos) <==> topology_changes_at(changes@.take(k as int), pos, false),
            forall|pos: BlockPos| #[trigger] network@.contains(pos) <==> topology_changes_at(changes@.take(k as int), pos, true),
        decreases changes@.len() - k,
    {
        let change = changes[k];
        let ghost prefix = changes@.take(k as int);
        let ghost next = changes@.take(k + 1);
        proof {
            assert(next =~= prefix.push(change));
            assert(next.drop_last() =~= prefix);
        }
        let ghost prior_topology = topology@;
        let ghost prior_network = network@;
        match change_effect(change.old_signature, change.new_signature) {
            ChangeEffect::StateOnly { record } => {
                if record {
                    state_changes.push((change.pos, change.new_state));
                }
            },
            ChangeEffect::Topology { network: reaches } => {
                insert_position(&mut topology, change.pos);
                if reaches {
                    insert_position(&mut network, change.pos);
                }
            },
        }
        proof {
            assert forall|pos: BlockPos, wide: bool| #[trigger] topology_changes_at(next, pos, wide) <==> (topology_changes_at(prefix, pos, wide) || (
            change.pos == pos && match effect_of(change) {
                ChangeEffect::Topology { network: reaches } => !wide || reaches,
                _ => false,
            })) by {
                if topology_changes_at(next, pos, wide) {
                    let i = choose|i: int|
                        0 <= i < next.len() && #[trigger] next[i].pos == pos && match effect_of(next[i]) {
                            ChangeEffect::Topology { network: reaches } => !wide || reaches,
                            _ => false,
                        };
                    if i < k {
                        assert(prefix[i] == next[i]);
                    }
                }
                if topology_changes_at(prefix, pos, wide) {
                    let i = choose|i: int|
                        0 <= i < prefix.len() && #[trigger] prefix[i].pos == pos && match effect_of(prefix[i]) {
                            ChangeEffect::Topology { network: reaches } => !wide || reaches,
                            _ => false,
                        };
                    assert(next[i] == prefix[i]);
                }
                if change.pos == pos {
                    assert(next[k as int] == change);
                }
            }
            assert forall|pos: BlockPos| #[trigger] topology@.contains(pos) <==> topology_changes_at(next, pos, false) by {
                assert(topology_changes_at(next, pos, false) <==> (topology_changes_at(prefix, pos, false) || (change.pos
                    == pos && match effect_of(change) {
                    ChangeEffect::Topology { network: reaches } => true,
                    _ => false,
                })));
            }
            assert forall|pos: BlockPos| #[trigger] network@.contains(pos) <==> topology_changes_at(next, pos, true) by {
                assert(topology_changes_at(next, pos, true) <==> (topology_changes_at(prefix, pos, true) || (change.pos
                    == pos && match effect_of(change) {
                    ChangeEffect::Topology { network: reaches } => reaches,
                    _ => false,
                })));
            }
        }
        k += 1;
    }
    proof {
        assert(changes@.take(changes@.len() as int) =~= changes@);
    }
    ChangeBatch { state_changes, topology_positions: topology, network_topology_positions: network }
}

/// The plan of a sorted batch, before any affected position is collected.
pub fn batch_plan(batch: &ChangeBatch, dense_network_active: bool) -> (kind: PlanKind)
    ensures
        kind == spec_early_plan(
            batch.topology_positions@.len(),
            batch.network_topology_positions@.len(),
            dense_network_active,
        ),
{
    early_plan(batch.topology_positions.len(), batch.network_topology_positions.len(), dense_network_active)
}

/// A changed position itself for `d == 0`, and its neighbour in the `d`-th
/// direction of the update order for `1 <= d <= 6`.
pub open spec fn around(t: BlockPos, d: int) -> BlockPos {
    if d == 0 {
        t
    } else {
        spec_relative(t, spec_update_order(d - 1))
    }
}

/// Whether a local rebuild starts from `q`: a changed position, one of its
/// six neighbours, or a wire that the wire closure reached.
pub open spec fn rebuild_seed(topology: Seq<BlockPos>, closure: Seq<BlockPos>, q: BlockPos) -> bool {
    ||| closure.contains(q)
    ||| exists|t: BlockPos, d: int|
        #![trigger topology.contains(t), around(t, d)]
        topology.contains(t) && 0 <= d < 7 && q == around(t, d)
}

/// Whether the node at `p`, if any, stands at `q` or reads it.
pub open spec fn node_reads(graph: &CompiledGraph, p: BlockPos, q: BlockPos) -> bool {
    match graph.id_at(p) {
        Some(id) => p == q || graph.node_of(id).dependencies@.contains(q),
        None => false,
    }
}

/// Whether a local rebuild recompiles `p`: it is a seed, or the node at it
/// stands at or reads a seed.
pub open spec fn affected_by(graph: &CompiledGraph, topology: Seq<BlockPos>, closure: Seq<BlockPos>, p: BlockPos) -> bool {
    rebuild_seed(topology, closure, p) || exists|q: BlockPos| #[trigger] rebuild_seed(topology, closure, q) && node_reads(
        graph,
        p,
        q,
    )
}

/// Each changed position followed by its six neighbours.
spec fn seeds_around(topology: Seq<BlockPos>) -> Seq<BlockPos>
    decreases topology.len(),
{
    if topology.len() == 0 {
        Seq::empty()
    } else {
        seeds_around(topology.drop_last()) + Seq::new(7, |d: int| around(topology.last(), d))
    }
}

proof fn lemma_seeds_around(topology: Seq<BlockPos>, q: BlockPos)
    ensures
        seeds_around(topology).contains(q) <==> exists|t: BlockPos, d: int|
            #![trigger topology.contains(t), around(t, d)]
            topology.contains(t) && 0 <= d < 7 && q == around(t, d),
    decreases topology.len(),
{
    if topology.len() > 0 {
        let rest = topology.drop_last();
        let last = topology.last();
        let head = seeds_around(rest);
        let tail = Seq::new(7, |d: int| around(last, d));
        lemma_seeds_around(rest, q);
        assert(seeds_around(topology) == head + tail);
        if (head + tail).contains(q) {
            let i = choose|i: int| 0 <= i < (head + tail).len() && (head + tail)[i] == q;
            if i < head.len() {
                assert(head[i] == q);
                let (t, d) = choose|t: BlockPos, d: int| rest.contains(t) && 0 <= d < 7 && q == around(t, d);
                let j = choose|j: int| 0 <= j < rest.len() && rest[j] == t;
                assert(topology[j] == t);
                assert(topology.contains(t));
            } else {
                let d = i - head.len();
                assert(tail[d] == q);
                assert(topology[topology.len() - 1] == last);
                assert(topology.contains(last));
                assert(around(last, d) == q);
            }
        }
        if exists|t: BlockPos, d: int|
            #![trigger topology.contains(t), around(t, d)]
            topology.contains(t) && 0 <= d < 7 && q == around(t, d) {
            let (t, d) = choose|t: BlockPos, d: int| topology.contains(t) && 0 <= d < 7 && q == around(t, d);
            let j = choose|j: int| 0 <= j < topology.len() && topology[j] == t;
            if j < topology.len() - 1 {
                assert(rest[j] == t);
                assert(rest.contains(t));
                assert(around(t, d) == q);
                assert(head.contains(q));
                let i = choose|i: int| 0 <= i < head.len() && head[i] == q;
                assert((head + tail)[i] == q);
            } else {
                assert(tail[d] == q);
                assert((head + tail)[head.len() + d] == q);
            }
        }
    }
}

/// The seeds of a local rebuild, in no particular order.
fn rebuild_seeds(topology: &[BlockPos], closure: &[BlockPos]) -> (seeds: Vec<BlockPos>)
    ensures
        forall|q: BlockPos| #[trigger] seeds@.contains(q) <==> rebuild_seed(topology@, closure@, q),
{
    let mut seeds: Vec<BlockPos> = Vec::new();
    let order = Direction::update_order();
    let mut k: usize = 0;
    while k < topology.len()
        invariant
            k <= topology@.len(),
            forall|i: int| 0 <= i < 6 ==> #[trigger] order@[i] == spec_update_order(i),
            seeds@ == seeds_around(topology@.take(k as int)),
        decreases topology@.len() - k,
    {
        let t = topology[k];
        let ghost before = seeds@;
        seeds.push(t);
        let mut d: usize = 0;
        while d < 6
            invariant
                d <= 6,
                forall|i: int| 0 <= i < 6 ==> #[trigger] order@[i] == spec_update_order(i),
                seeds@ == before + Seq::new((d + 1) as nat, |e: int| around(t, e)),
            decreases 6 - d,
        {
            seeds.push(t.relative(order[d]));
            proof {
                assert(before + Seq::new((d + 2) as nat, |e: int| around(t, e)) =~= (before + Seq::new((d + 1) as nat, |e: int| around(t, e))).push(
                    around(t, d + 1)));
            }
            d += 1;
        }
        proof {
            let next = topology@.take(k + 1);
            assert(next.drop_last() =~= topology@.take(k as int));
            assert(next.last() == t);
        }
        k += 1;
    }
    proof {
        assert(topology@.take(topology@.len() as int) =~= topology@);
    }
    let ghost grown = seeds@;
    let mut c: usize = 0;
    while c < closure.len()
        invariant
            c <= closure@.len(),
            seeds@ == grown + closure@.take(c as int),
        decreases closure@.len() - c,
    {
        seeds.push(closure[c]);
        proof {
            assert(grown + closure@.take(c + 1) =~= (grown + closure@.take(c as int)).push(closure@[c as int]));
        }
        c += 1;
    }
    proof {
        assert(closure@.take(closure@.len() as int) =~= closure@);
        assert forall|q: BlockPos| #[trigger] seeds@.contains(q) <==> rebuild_seed(topology@, closure@, q) by {
            lemma_seeds_around(topology@, q);
            if seeds@.contains(q) {
                let i = choose|i: int| 0 <= i < seeds@.len() && seeds@[i] == q;
                if i < grown.len() {
                    assert(grown[i] == q);
                } else {
                    assert(closure@[i - grown.len()] == q);
                }
            }
            if grown.contains(q) {
                let i = choose|i: int| 0 <= i < grown.len() && grown[i] == q;
                assert(seeds@[i] == q);
            }
            if closure@.contains(q) {
                let i = choose|i: int| 0 <= i < closure@.len() && closure@[i] == q;
                assert(seeds@[grown.len() + i] == q);
            }
        }
    }
    seeds
}

/// The positions a local rebuild recompiles after topology changes at
/// `topology`, with `closure` the wires that the wire closure reached:
/// ascending, once each.
pub(crate) fn collect_affected(graph: &CompiledGraph, topology: &[BlockPos], closure: &[BlockPos]) -> (affected: Vec<BlockPos>)
    requires
        graph.valid(),
    ensures
        positions_ascending(affected@),
        forall|p: BlockPos| #[trigger] affected@.contains(p) <==> affected_by(graph, topology@, closure@, p),
{
    let seeds = rebuild_seeds(topology, closure);
    let mut affected: Vec<BlockPos> = Vec::new();
    let mut k: usize = 0;
    while k < seeds.len()
        invariant
            graph.valid(),
            k <= seeds@.len(),
            positions_ascending(affected@),
            forall|p: BlockPos| #[trigger] affected@.contains(p) <==> exists|q: BlockPos|
                #[trigger] seeds@.take(k as int).contains(q) && (p == q || node_reads(graph, p, q)),
        decreases seeds@.len() - k,
    {
        let q = seeds[k];
        let ghost done = seeds@.take(k as int);
        let ghost before = affected@;
        insert_position(&mut affected, q);
        let readers = graph.dependents(q);
        let ghost inserted = affected@;
        let mut j: usize = 0;
        while j < readers.len()
            invariant
                j <= readers@.len(),
                positions_ascending(affected@),
                forall|p: BlockPos| #[trigger] affected@.contains(p) <==> (inserted.contains(p) || readers@.take(
                    j as int,
                ).contains(p)),
            decreases readers@.len() - j,
        {
            insert_position(&mut affected, readers[j]);
            proof {
                assert(readers@.take(j + 1) =~= readers@.take(j as int).push(readers@[j as int]));
                assert forall|p: BlockPos| #[trigger] affected@.contains(p) <==> (inserted.contains(p) || readers@.take(
                    j + 1,
                ).contains(p)) by {
                    vstd::seq_lib::lemma_seq_contains_after_push(readers@.take(j as int), readers@[j as int], p);
                }
            }
            j += 1;
        }
        proof {
            assert(readers@.take(readers@.len() as int) =~= readers@);
            let next = seeds@.take(k + 1);
            assert(next =~= done.push(q));
            assert forall|p: BlockPos| #[trigger] affected@.contains(p) <==> exists|r: BlockPos|
                #[trigger] next.contains(r) && (p == r || node_reads(graph, p, r)) by {
                if affected@.contains(p) {
                    if before.contains(p) {
                        let r = choose|r: BlockPos| #[trigger] done.contains(r) && (p == r || node_reads(graph, p, r));
                        vstd::seq_lib::lemma_seq_contains_after_push(done, q, r);
                    } else {
                        vstd::seq_lib::lemma_seq_contains_after_push(done, q, q);
                        if readers@.contains(p) {
                            assert(node_reads(graph, p, q));
                        }
                    }
                }
                if exists|r: BlockPos| #[trigger] next.contains(r) && (p == r || node_reads(graph, p, r)) {
                    let r = choose|r: BlockPos| #[trigger] next.contains(r) && (p == r || node_reads(graph, p, r));
                    vstd::seq_lib::lemma_seq_contains_after_push(done, q, r);
                    if r != q {
                        assert(done.contains(r));
                        assert(before.contains(p));
                    } else if p != q {
                        assert(readers@.contains(p));
                    }
                }
            }
        }
        k += 1;
    }
    proof {
        assert(seeds@.take(seeds@.len() as int) =~= seeds@);
        assert forall|p: BlockPos| #[trigger] affected@.contains(p) <==> affected_by(graph, topology@, closure@, p) by {
            if affected@.contains(p) {
                let r = choose|r: BlockPos| #[trigger] seeds@.contains(r) && (p == r || node_reads(graph, p, r));
                assert(rebuild_seed(topology@, closure@, r));
            }
            if rebuild_seed(topology@, closure@, p) {
                assert(seeds@.contains(p));
            }
            if exists|r: BlockPos| #[trigger] rebuild_seed(topology@, closure@, r) && node_reads(graph, p, r) {
                let r = choose|r: BlockPos| #[trigger] rebuild_seed(topology@, closure@, r) && node_reads(graph, p, r);
                assert(seeds@.contains(r));
            }
        }
    }
    affected
}

/// Whether a local rebuild starts from `q`: a changed position, one of its
/// six neighbours, or a wire that the wire search over `view` reaches from
/// the changed positions.
pub open spec fn seed_in(graph: &CompiledGraph, view: &WireView, topology: Seq<BlockPos>, q: BlockPos) -> bool {
    ||| reached(graph, view, topology, q, CLOSURE_STEPS as nat)
    ||| exists|t: BlockPos, d: int|
        #![trigger topology.contains(t), around(t, d)]
        topology.contains(t) && 0 <= d < 7 && q == around(t, d)
}

/// Whether a local rebuild after topology changes at `topology` recompiles
/// `p`, the wire search running over `view`: it is a seed, or the node at it
/// stands at or reads a seed.
pub open spec fn affected_in(graph: &CompiledGraph, view: &WireView, topology: Seq<BlockPos>, p: BlockPos) -> bool {
    seed_in(graph, view, topology, p) || exists|q: BlockPos| #[trigger] seed_in(graph, view, topology, q) && node_reads(
        graph,
        p,
        q,
    )
}

/// The positions a local rebuild recompiles after topology changes at
/// `topology`, the wire search running over `view`: ascending, once each.
pub fn affected_positions(graph: &CompiledGraph, view: &WireView, topology: &[BlockPos]) -> (affected: Vec<BlockPos>)
    requires
        graph.valid(),
    ensures
        positions_ascending(affected@),
        forall|p: BlockPos| #[trigger] affected@.contains(p) <==> affected_in(graph, view, topology@, p),
{
    let closure = wire_closure(graph, view, topology);
    let affected = collect_affected(graph, topology, closure.as_slice());
    proof {
        assert forall|q: BlockPos| #[trigger] rebuild_seed(topology@, closure@, q) == seed_in(graph, view, topology@, q) by {}
        assert forall|p: BlockPos| #[trigger] affected@.contains(p) <==> affected_in(graph, view, topology@, p) by {
            assert(affected_by(graph, topology@, closure@, p) == affected_in(graph, view, topology@, p)) by {
                if exists|q: BlockPos| #[trigger] rebuild_seed(topology@, closure@, q) && node_reads(graph, p, q) {
                    let q = choose|q: BlockPos| #[trigger] rebuild_seed(topology@, closure@, q) && node_reads(graph, p, q);
                    assert(seed_in(graph, view, topology@, q));
                }
                if exists|q: BlockPos| #[trigger] seed_in(graph, view, topology@, q) && node_reads(graph, p, q) {
                    let q = choose|q: BlockPos| #[trigger] seed_in(graph, view, topology@, q) && node_reads(graph, p, q);
                    assert(rebuild_seed(topology@, closure@, q));
                }
            }
        }
    }
    affected
}

/// How the compiled graph answers a batch of changes: by recording states
/// only, by rebuilding the given positions, or by rebuilding everything.
/// Each variant keeps the states to record and, where the dense network may
/// be affected, the topology positions that reach it.
#[derive(Debug)]
pub enum InvalidationPlan {
    StateOnly { state_changes: Vec<(BlockPos, BlockStateId)> },
    Local {
        state_changes: Vec<(BlockPos, BlockStateId)>,
        topology_positions: Vec<BlockPos>,
        network_topology_positions: Vec<BlockPos>,
        positions: Vec<BlockPos>,
    },
    Full { state_changes: Vec<(BlockPos, BlockStateId)>, network_topology_positions: Vec<BlockPos> },
}

/// Plans the answer to a sorted batch of changes: states only without a
/// topology change; a full rebuild above the change limit; with the dense
/// network active and untouched, a rebuild of nothing beyond the network's
/// own inputs; otherwise the affected positions are collected, the wire
/// search running over `view`, and a share of the graph's nodes above the
/// local limit rebuilds everything.
pub fn plan(graph: &CompiledGraph, batch: ChangeBatch, dense_network_active: bool, view: &WireView) -> (result: InvalidationPlan)
    requires
        graph.valid(),
    ensures
        match spec_early_plan(
            batch.topology_positions@.len(),
            batch.network_topology_positions@.len(),
            dense_network_active,
        ) {
            PlanKind::StateOnly => result matches InvalidationPlan::StateOnly { state_changes } && state_changes@
                == batch.state_changes@,
            PlanKind::Full => result matches InvalidationPlan::Full { state_changes, network_topology_positions }
                && state_changes@ == batch.state_changes@ && network_topology_positions@
                == batch.network_topology_positions@,
            PlanKind::LocalTopologyOnly => result matches InvalidationPlan::Local {
                state_changes,
                topology_positions,
                network_topology_positions,
                positions,
            } && state_changes@ == batch.state_changes@ && topology_positions@ == batch.topology_positions@
                && network_topology_positions@ == batch.network_topology_positions@ && positions@.len() == 0,
            PlanKind::CollectAffected => match result {
                InvalidationPlan::Local { state_changes, topology_positions, network_topology_positions, positions } => {
                    &&& state_changes@ == batch.state_changes@
                    &&& topology_positions@ == batch.topology_positions@
                    &&& network_topology_positions@ == batch.network_topology_positions@
                    &&& positions_ascending(positions@)
                    &&& forall|p: BlockPos| #[trigger] positions@.contains(p) <==> affected_in(
                        graph,
                        view,
                        batch.topology_positions@,
                        p,
                    )
                    &&& !spec_rebuilds_fully(positions@.len(), graph.node_total())
                },
                InvalidationPlan::Full { state_changes, network_topology_positions } => {
                    &&& state_changes@ == batch.state_changes@
                    &&& network_topology_positions@ == batch.network_topology_positions@
                    &&& exists|affected: Seq<BlockPos>| {
                        &&& positions_ascending(affected)
                        &&& forall|p: BlockPos| #[trigger] affected.contains(p) <==> affected_in(
                            graph,
                            view,
                            batch.topology_positions@,
                            p,
                        )
                        &&& spec_rebuilds_fully(affected.len(), graph.node_total())
                    }
                },
                InvalidationPlan::StateOnly { .. } => false,
            },
        },
{
    let kind = batch_plan(&batch, dense_network_active);
    let ChangeBatch { state_changes, topology_positions, network_topology_positions } = batch;
    match kind {
        PlanKind::StateOnly => InvalidationPlan::StateOnly { state_changes },
        PlanKind::Full => InvalidationPlan::Full { state_changes, network_topology_positions },
        PlanKind::LocalTopologyOnly => InvalidationPlan::Local {
            state_changes,
            topology_positions,
            network_topology_positions,
            positions: Vec::new(),
        },
        PlanKind::CollectAffected => {
            let affected = affected_positions(graph, view, topology_positions.as_slice());
            if rebuilds_fully(affected.len(), graph.node_count()) {
                InvalidationPlan::Full { state_changes, network_topology_positions }
            } else {
                InvalidationPlan::Local { state_changes, topology_positions, network_topology_positions, positions: affected }
            }
        },
    }
}

} // verus!
