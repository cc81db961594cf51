//! The compiled runtime: the node graph, the dense network when it is
//! enabled, and the counters of the work done; it answers block changes by
//! recording states, rebuilding locally or rebuilding everything.

use vstd::prelude::*;

use crate::compiled::graph::{
    has_reading, law_graph_consistent, reading_of, readings_distinct, readings_total, recompiled_at, BlockReading,
    CompiledGraph, GraphNode, NodeId,
};
use crate::compiled::invalidation::InvalidationPlan;
use crate::compiled::network::NetworkWireId;
use crate::compiled::runtime::{
    buckets_restored, chained, clean_settled, events_valid, initial_changes, origin_outcome, propagation_error_allowed,
    replay, silenced, walk, OrderedPropagationError, ORDERED_PROPAGATION_LIMIT,
    OrderedWireEvent, WirePowerTransition,
};
use crate::compiled::state::{CompiledWireTransition, NetworkState};
use crate::compiled::passes::positions_ascending;
use crate::compiled::static_network::StaticNetwork;
use crate::position::{BlockPos, BlockStateId};

verus! {

/// What one synchronization did: whether it rebuilt everything, how many
/// nodes it rebuilt, and whether it fell back to the interpreter.
#[derive(Clone, Copy, Debug, PartialEq, Eq, Structural)]
pub struct Synchronization {
    pub full_recompile: bool,
    pub recompiled_nodes: usize,
    pub fallback_to_interpreted: bool,
}

/// A compiled network whose runtime does not start at the recorded wire
/// powers: the first wire that differs, its recorded and computed power,
/// and how many wires differ.
#[derive(Clone, Copy, Debug, PartialEq, Eq, Structural)]
pub struct InitialWireMismatch {
    pub pos: BlockPos,
    pub world: u8,
    pub compiled: u8,
    pub mismatches: usize,
}

/// Why a compiled event could not be resolved: it names a wire, observer
/// or boundary that the network does not have.
#[derive(Clone, Copy, Debug, PartialEq, Eq, Structural)]
pub enum StaleReference {
    Wire,
    Observer,
    Boundary,
}

/// `a + b`, or `u64::MAX` when that does not fit.
pub open spec fn add_capped(a: u64, b: u64) -> u64 {
    if a + b > u64::MAX {
        u64::MAX
    } else {
        (a + b) as u64
    }
}

/// `a + b`, or `usize::MAX` when that does not fit.
pub open spec fn add_capped_usize(a: usize, b: usize) -> usize {
    if a + b > usize::MAX {
        usize::MAX
    } else {
        (a + b) as usize
    }
}

fn saturating_u64(a: u64, b: u64) -> (sum: u64)
    ensures
        sum == add_capped(a, b),
{
    a.saturating_add(b)
}

fn saturating_usize(a: usize, b: usize) -> (sum: usize)
    ensures
        sum == add_capped_usize(a, b),
{
    a.saturating_add(b)
}

/// The node graph, the dense network if enabled, and the counters of
/// compiled and interpreted updates and of rebuilds.
pub struct CompiledRuntime {
    graph: CompiledGraph,
    network: Option<NetworkState>,
    compiled_updates: u64,
    interpreted_updates: u64,
    partial_recompilations: u64,
    full_recompilations: u64,
    dense_full_rebuilds: u64,
    recompiled_nodes: u64,
}

impl CompiledRuntime {
    /// The node graph.
    pub closed spec fn node_graph(&self) -> CompiledGraph {
        self.graph
    }

    /// The dense network, if enabled.
    pub closed spec fn network_state(&self) -> Option<NetworkState> {
        self.network
    }

    /// The counters, in the order compiled updates, interpreted updates,
    /// partial rebuilds, full rebuilds, dense network rebuilds, rebuilt nodes.
    pub closed spec fn counters(&self) -> (u64, u64, u64, u64, u64, u64) {
        (
            self.compiled_updates,
            self.interpreted_updates,
            self.partial_recompilations,
            self.full_recompilations,
            self.dense_full_rebuilds,
            self.recompiled_nodes,
        )
    }

    /// The graph is valid, and so is the network when enabled.
    pub closed spec fn valid(&self) -> bool {
        &&& self.graph.valid()
        &&& match self.network {
            Some(network) => network.valid(),
            None => true,
        }
    }

    /// A runtime over `graph` and, if given, `network`, with every counter
    /// at zero. Refused when the network's runtime does not start at the
    /// recorded wire powers: the error names the first wire that differs.
    pub fn compile(graph: CompiledGraph, network: Option<NetworkState>) -> (result: Result<
        CompiledRuntime,
        InitialWireMismatch,
    >)
        requires
            graph.valid(),
            network matches Some(n) ==> n.valid(),
        ensures
            match result {
                Ok(runtime) => {
                    &&& runtime.valid()
                    &&& runtime.node_graph() == graph
                    &&& runtime.network_state() == network
                    &&& runtime.counters() == (0u64, 0u64, 0u64, 0u64, 0u64, 0u64)
                    &&& network matches Some(n) ==> initial_changes(
                        &n.network(),
                        n.network_runtime().powers(),
                        n.network().wires.count() as int,
                    ).len() == 0
                },
                Err(mismatch) => network matches Some(n) && {
                    let changes = initial_changes(
                        &n.network(),
                        n.network_runtime().powers(),
                        n.network().wires.count() as int,
                    );
                    &&& changes.len() > 0
                    &&& mismatch.world == changes[0].old_power
                    &&& mismatch.compiled == changes[0].new_power
                    &&& mismatch.mismatches == changes.len()
                    &&& mismatch.pos == (if changes[0].wire.0 < n.network().wires.count() {
                        n.network().wires.positions@[changes[0].wire.0 as int]
                    } else {
                        BlockPos { x: 0, y: 0, z: 0 }
                    })
                },
            },
    {
        match &network {
            Some(state) => {
                let changes = state.runtime().initial_wire_transitions(state.graph());
                if changes.len() > 0 {
                    let first = changes[0];
                    let pos = match state.graph().wires.wire_pos(first.wire) {
                        Some(pos) => pos,
                        None => BlockPos::zero(),
                    };
                    return Err(
                        InitialWireMismatch {
                            pos,
                            world: first.old_power,
                            compiled: first.new_power,
                            mismatches: changes.len(),
                        },
                    );
                }
            },
            None => {},
        }
        Ok(
            CompiledRuntime {
                graph,
                network,
                compiled_updates: 0,
                interpreted_updates: 0,
                partial_recompilations: 0,
                full_recompilations: 0,
                dense_full_rebuilds: 0,
                recompiled_nodes: 0,
            },
        )
    }

    /// The node graph.
    pub fn graph(&self) -> (graph: &CompiledGraph)
        ensures
            *graph == self.node_graph(),
    {
        &self.graph
    }

    /// The dense network, if enabled.
    pub fn network(&self) -> (network: Option<&NetworkState>)
        ensures
            network == (match self.network_state() {
                Some(n) => Some(&n),
                None => None::<&NetworkState>,
            }),
    {
        match &self.network {
            Some(n) => Some(n),
            None => None,
        }
    }

    /// The number of compiled nodes: the network's nodes and wires when the
    /// network is enabled, the graph's nodes otherwise, saturating.
    pub fn node_count(&self) -> (count: usize)
        requires
            self.valid(),
        ensures
            count == match self.network_state() {
                Some(n) => add_capped_usize(n.network().node_total() as usize, n.network().wires.count() as usize),
                None => self.node_graph().node_total() as usize,
            },
    {
        match &self.network {
            Some(n) => saturating_usize(n.graph().node_count(), n.graph().wire_count()),
            None => self.graph.node_count(),
        }
    }

    /// The number of compiled edges: the network's edges and wire neighbour
    /// entries when the network is enabled, the graph's edges otherwise,
    /// saturating.
    pub fn edge_count(&self) -> (count: usize)
        requires
            self.valid(),
        ensures
            count == match self.network_state() {
                Some(n) => add_capped_usize(
                    n.network().edges@.len() as usize,
                    n.network().build_stats.wire_neighbor_entries,
                ),
                None => self.node_graph().edge_total() as usize,
            },
    {
        match &self.network {
            Some(n) => saturating_usize(n.graph().edge_count(), n.graph().build_stats().wire_neighbor_entries),
            None => self.graph.edge_count(),
        }
    }

    /// Updates answered by the compiled network.
    pub fn compiled_updates(&self) -> (count: u64)
        ensures
            count == self.counters().0,
    {
        self.compiled_updates
    }

    /// Updates left to the interpreter.
    pub fn interpreted_updates(&self) -> (count: u64)
        ensures
            count == self.counters().1,
    {
        self.interpreted_updates
    }

    /// Synchronizations that rebuilt some nodes locally.
    pub fn partial_recompilations(&self) -> (count: u64)
        ensures
            count == self.counters().2,
    {
        self.partial_recompilations
    }

    /// Synchronizations that rebuilt everything.
    pub fn full_recompilations(&self) -> (count: u64)
        ensures
            count == self.counters().3,
    {
        self.full_recompilations
    }

    /// Times the dense network was built anew.
    pub fn dense_full_rebuilds(&self) -> (count: u64)
        ensures
            count == self.counters().4,
    {
        self.dense_full_rebuilds
    }

    /// Nodes rebuilt over all synchronizations.
    pub fn recompiled_nodes(&self) -> (count: u64)
        ensures
            count == self.counters().5,
    {
        self.recompiled_nodes
    }

    /// Counts ordered events: wire events as compiled updates, boundary
    /// events as interpreted ones, saturating.
    pub fn record_ordered_events(&mut self, wire: u64, boundary: u64)
        ensures
            final(self).node_graph() == old(self).node_graph(),
            final(self).network_state() == old(self).network_state(),
            final(self).counters() == ({
                let c = old(self).counters();
                (add_capped(c.0, wire), add_capped(c.1, boundary), c.2, c.3, c.4, c.5)
            }),
    {
        self.compiled_updates = saturating_u64(self.compiled_updates, wire);
        self.interpreted_updates = saturating_u64(self.interpreted_updates, boundary);
    }

    /// Hands the network node at `pos`, if the network is enabled and has
    /// one, the output `output` without propagating wire powers.
    pub fn update_network_source_deferred(&mut self, pos: BlockPos, output: u8)
        requires
            old(self).valid(),
        ensures
            final(self).valid(),
            final(self).node_graph() == old(self).node_graph(),
            final(self).counters() == old(self).counters(),
            final(self).network_state() is Some == old(self).network_state() is Some,
            final(self).network_state() matches Some(after) ==> {
                let before = old(self).network_state()->0;
                let network = before.network();
                let found = network.positions.has(pos) && network.positions.at(pos).0 < network.node_total();
                &&& after.network() == network
                &&& after.disabled() == before.disabled()
                &&& after.disabled_total() == before.disabled_total()
                &&& !found ==> after.network_runtime().output_levels() == before.network_runtime().output_levels()
                &&& found ==> after.network_runtime().output_levels() == before.network_runtime().output_levels().update(
                    network.positions.at(pos).0 as int,
                    if output > 15 {
                        15u8
                    } else {
                        output
                    },
                )
            },
    {
        match &mut self.network {
            Some(network) => {
                network.update_source_deferred(pos, output);
            },
            None => {},
        }
    }

    /// Propagates a change at the wire at `origin` through the network in
    /// the precompiled order, as the network state does; Ok(false), with
    /// nothing changed, without a network.
    pub fn propagate_ordered(&mut self, origin: BlockPos, events: &mut Vec<OrderedWireEvent>) -> (result: Result<
        bool,
        OrderedPropagationError,
    >)
        requires
            old(self).valid(),
        ensures
            final(self).valid(),
            final(self).node_graph() == old(self).node_graph(),
            final(self).counters() == old(self).counters(),
            final(self).network_state() is Some == old(self).network_state() is Some,
            old(self).network_state() is None ==> result == Ok::<bool, OrderedPropagationError>(false) && final(events)@ == old(events)@,
            final(self).network_state() matches Some(after) ==> {
                let before = old(self).network_state()->0;
                let wires = before.network().wires;
                let skipped = !wires.position_index.has(origin) || (before.disabled_total() != 0
                    && wires.position_index.at(origin).0 < before.disabled().len()
                    && before.disabled()[wires.position_index.at(origin).0 as int]);
                &&& after.network() == before.network()
                &&& after.disabled() == before.disabled()
                &&& after.disabled_total() == before.disabled_total()
                &&& after.network_runtime().output_levels() == before.network_runtime().output_levels()
                &&& after.network_runtime().direct_levels() == before.network_runtime().direct_levels()
                &&& (result == Ok::<bool, OrderedPropagationError>(false)) == skipped
                &&& skipped ==> after.network_runtime() == before.network_runtime() && final(events)@ == old(events)@
                &&& result == Ok::<bool, OrderedPropagationError>(true) ==> {
                    &&& events_valid(&before.network(), final(events)@)
                    &&& chained(before.network_runtime().powers(), final(events)@)
                    &&& after.network_runtime().powers() == replay(before.network_runtime().powers(), final(events)@)
                }
                &&& result is Err ==> after.network_runtime().powers() == before.network_runtime().powers()
                &&& match result {
                    Ok(_) => true,
                    Err(error) => propagation_error_allowed(
                        &before.network(),
                        wires.position_index.at(origin),
                        before.disabled_total() != 0,
                        before.disabled(),
                        Err(error),
                    ),
                }
                &&& result is Err ==> buckets_restored(
                    before.network_runtime().bucket_rows(),
                    before.network_runtime().bucket_masks(),
                    after.network_runtime().bucket_rows(),
                    after.network_runtime().bucket_masks(),
                )
                &&& !skipped ==> origin_outcome(
                    &before.network(),
                    wires.position_index.at(origin),
                    before.disabled_total() != 0,
                    before.disabled(),
                    before.network_runtime().powers(),
                    before.network_runtime().direct_levels(),
                    match result {
                        Ok(_) => Ok::<(), OrderedPropagationError>(()),
                        Err(error) => Err(error),
                    },
                    final(events)@,
                    after.network_runtime().powers(),
                )
                &&& !skipped && wires.position_index.at(origin).0 < wires.count() ==> match walk(
                    &before.network(),
                    before.network_runtime().walk_setting(
                        before.disabled_total() != 0,
                        if before.disabled_total() != 0 {
                            before.disabled()
                        } else {
                            Seq::<bool>::empty()
                        },
                    ),
                    before.network_runtime().walk_start(wires.position_index.at(origin)),
                    ORDERED_PROPAGATION_LIMIT as nat,
                ) {
                    Ok(w) => result == Ok::<bool, OrderedPropagationError>(true) && final(events)@ == w.events
                        && after.network_runtime().powers() == w.powers,
                    Err(error) => result == Err::<bool, OrderedPropagationError>(error),
                }
                &&& result == Ok::<bool, OrderedPropagationError>(true) && clean_settled(
                    wires,
                    before.network_runtime().powers(),
                    before.network_runtime().direct_levels(),
                    before.network_runtime().dirty_wires().update(wires.position_index.at(origin).0 as int, true),
                ) ==> clean_settled(
                    wires,
                    after.network_runtime().powers(),
                    after.network_runtime().direct_levels(),
                    after.network_runtime().dirty_wires(),
                )
            },
    {
        match &mut self.network {
            Some(network) => network.propagate_ordered(origin, events),
            None => Ok(false),
        }
    }

    /// Resolves a wire power change against the network: its wire, position
    /// and observer range. Stale when there is no network or no such wire.
    pub fn resolve_wire_transition(&self, transition: WirePowerTransition) -> (result: Result<
        CompiledWireTransition,
        StaleReference,
    >)
        requires
            self.valid(),
        ensures
            match self.network_state() {
                None => result == Err::<CompiledWireTransition, StaleReference>(StaleReference::Wire),
                Some(n) => {
                    let wires = n.network().wires;
                    let w = transition.wire.0 as int;
                    match result {
                        Err(reason) => reason == StaleReference::Wire && w >= wires.count(),
                        Ok(r) => {
                            &&& w < wires.count()
                            &&& r == CompiledWireTransition {
                                wire: transition.wire.0,
                                pos: wires.positions@[w],
                                old_power: transition.old_power,
                                new_power: transition.new_power,
                                observer_start: wires.observer_offsets@[w],
                                observer_count: (wires.observer_offsets@[w + 1] - wires.observer_offsets@[w]) as u8,
                            }
                        },
                    }
                },
            },
    {
        match &self.network {
            Some(network) => match network.resolve_wire_transition(transition) {
                Some(resolved) => Ok(resolved),
                None => Err(StaleReference::Wire),
            },
            None => Err(StaleReference::Wire),
        }
    }

    /// The position of the observer at `index` of the network's observer
    /// table. Stale when there is no network or no such observer.
    pub fn resolve_wire_observer(&self, index: u32) -> (result: Result<BlockPos, StaleReference>)
        ensures
            result == match self.network_state() {
                Some(n) => if (index as int) < n.network().wires.observers@.len() {
                    Ok::<BlockPos, StaleReference>(n.network().wires.observers@[index as int])
                } else {
                    Err(StaleReference::Observer)
                },
                None => Err(StaleReference::Observer),
            },
    {
        match &self.network {
            Some(network) => match network.graph().wires.observer(index as usize) {
                Some(pos) => Ok(pos),
                None => Err(StaleReference::Observer),
            },
            None => Err(StaleReference::Observer),
        }
    }

    /// The position of the wire in slot `wire`. Stale when there is no
    /// network or no such wire.
    pub fn resolve_wire_pos(&self, wire: u32) -> (result: Result<BlockPos, StaleReference>)
        ensures
            result == match self.network_state() {
                Some(n) => if (wire as int) < n.network().wires.count() {
                    Ok::<BlockPos, StaleReference>(n.network().wires.positions@[wire as int])
                } else {
                    Err(StaleReference::Wire)
                },
                None => Err(StaleReference::Wire),
            },
    {
        match &self.network {
            Some(network) => match network.graph().wires.wire_pos_at(wire as usize) {
                Some(pos) => Ok(pos),
                None => Err(StaleReference::Wire),
            },
            None => Err(StaleReference::Wire),
        }
    }

    /// The slot of the wire at `pos`, if the network is enabled and has one.
    pub fn wire_index(&self, pos: BlockPos) -> (index: Option<u32>)
        ensures
            index == match self.network_state() {
                Some(n) => if n.network().wires.position_index.has(pos) {
                    Some(n.network().wires.position_index.at(pos).0)
                } else {
                    None
                },
                None => None,
            },
    {
        match &self.network {
            Some(network) => match network.graph().wire_id(pos) {
                Some(id) => Some(id.0),
                None => None,
            },
            None => None,
        }
    }

    /// The position of the boundary at `target` of the network's boundary
    /// table and the position of its source. Stale when there is no network
    /// or no such boundary.
    pub fn resolve_boundary(&self, target: u32) -> (result: Result<(BlockPos, BlockPos), StaleReference>)
        ensures
            result == match self.network_state() {
                Some(n) => if (target as int) < n.network().wires.ordered_boundaries@.len() {
                    let boundary = n.network().wires.ordered_boundaries@[target as int];
                    Ok::<(BlockPos, BlockPos), StaleReference>((boundary.pos, boundary.source_pos))
                } else {
                    Err(StaleReference::Boundary)
                },
                None => Err(StaleReference::Boundary),
            },
    {
        match &self.network {
            Some(network) => match network.graph().wires.ordered_boundary(target as usize) {
                Some(boundary) => Ok((boundary.pos, boundary.source_pos)),
                None => Err(StaleReference::Boundary),
            },
            None => Err(StaleReference::Boundary),
        }
    }

    /// Records each state change in the graph, in order.
    fn apply_state_changes(&mut self, changes: &[(BlockPos, BlockStateId)])
        requires
            old(self).valid(),
        ensures
            final(self).valid(),
            final(self).network_state() == old(self).network_state(),
            final(self).counters() == old(self).counters(),
            states_recorded(&old(self).node_graph(), &final(self).node_graph(), changes@),
    {
        let mut k: usize = 0;
        while k < changes.len()
            invariant
                self.valid(),
                k <= changes@.len(),
                self.network_state() == old(self).network_state(),
                self.counters() == old(self).counters(),
                states_recorded(&old(self).node_graph(), &self.node_graph(), changes@.take(k as int)),
            decreases changes@.len() - k,
        {
            let (pos, state) = changes[k];
            let ghost before = self.graph;
            self.graph.update_state(pos, state);
            proof {
                law_graph_consistent(&before);
                let done = changes@.take(k as int);
                let next = changes@.take(k + 1);
                assert(next.drop_last() =~= done);
                assert(next.last() == (pos, state));
                let start = old(self).node_graph();
                assert forall|x: NodeId| start.live(x) implies #[trigger] self.graph.node_of(x) == (GraphNode {
                    state: last_state(next, start.node_of(x).pos, start.node_of(x).state),
                    ..start.node_of(x)
                }) by {
                    assert(before.live(x));
                    if before.id_at(pos) == Some(x) {
                        assert(before.node_of(x).pos == pos);
                    } else {
                        if before.node_of(x).pos == pos {
                            assert(before.id_at(pos) == Some(x));
                        }
                    }
                }
            }
            k += 1;
        }
        proof {
            assert(changes@.take(changes@.len() as int) =~= changes@);
        }
    }
}

/// The state that a sequence of state changes leaves at `pos`: that of the
/// last change there, or `default` when none is there.
pub open spec fn last_state(changes: Seq<(BlockPos, BlockStateId)>, pos: BlockPos, default: BlockStateId) -> BlockStateId
    decreases changes.len(),
{
    if changes.len() == 0 {
        default
    } else if changes.last().0 == pos {
        changes.last().1
    } else {
        last_state(changes.drop_last(), pos, default)
    }
}

/// Whether `after` is `before` with the state changes recorded: the same
/// nodes under the same handles, each with the last state changed at its
/// position, the same reverse index and the same counts.
pub open spec fn states_recorded(
    before: &CompiledGraph,
    after: &CompiledGraph,
    changes: Seq<(BlockPos, BlockStateId)>,
) -> bool {
    &&& forall|x: NodeId| #[trigger] after.live(x) == before.live(x)
    &&& forall|p: BlockPos| #[trigger] after.id_at(p) == before.id_at(p)
    &&& forall|p: BlockPos| #[trigger] after.listed_at(p) == before.listed_at(p)
    &&& forall|x: NodeId| before.live(x) ==> #[trigger] after.node_of(x) == (GraphNode {
        state: last_state(changes, before.node_of(x).pos, before.node_of(x).state),
        ..before.node_of(x)
    })
    &&& after.edge_total() == before.edge_total()
    &&& after.node_total() == before.node_total()
    &&& after.slot_count() == before.slot_count()
    &&& after.free_list() == before.free_list()
}

/// The states a plan records.
pub open spec fn plan_states(plan: &InvalidationPlan) -> Seq<(BlockPos, BlockStateId)> {
    match plan {
        InvalidationPlan::StateOnly { state_changes } => state_changes@,
        InvalidationPlan::Local { state_changes, .. } => state_changes@,
        InvalidationPlan::Full { state_changes, .. } => state_changes@,
    }
}

/// Whether answering `plan` keeps node `i` of `network` on the fast path,
/// when the network is not rebuilt: a state-only plan keeps every node, a
/// local rebuild those that no change at its topology positions reaches, a
/// full rebuild none.
pub open spec fn keeps_fast_input(plan: &InvalidationPlan, network: &StaticNetwork, i: int) -> bool {
    match plan {
        InvalidationPlan::StateOnly { .. } => true,
        InvalidationPlan::Local { topology_positions, .. } => !silenced(network, topology_positions@, i),
        InvalidationPlan::Full { .. } => false,
    }
}

/// The topology positions of a plan that reach the dense network.
pub open spec fn plan_network_positions(plan: &InvalidationPlan) -> Seq<BlockPos> {
    match plan {
        InvalidationPlan::StateOnly { .. } => Seq::empty(),
        InvalidationPlan::Local { network_topology_positions, .. } => network_topology_positions@,
        InvalidationPlan::Full { network_topology_positions, .. } => network_topology_positions@,
    }
}

/// What a plan asks of the readings it comes with: for a local rebuild, one
/// reading for each rebuilt position and each node standing at or reading
/// one of them, the positions once each, and room for the new slots and
/// edges; for a full rebuild, one reading per position and room for all
/// their slots and edges.
pub open spec fn readings_fit(graph: &CompiledGraph, plan: &InvalidationPlan, world: Seq<BlockReading>) -> bool {
    match plan {
        InvalidationPlan::StateOnly { .. } => true,
        InvalidationPlan::Local { positions, .. } => {
            &&& positions@.no_duplicates()
            &&& readings_distinct(world)
            &&& forall|p: BlockPos| #[trigger] positions@.contains(p) ==> has_reading(world, p)
            &&& forall|p: BlockPos| #[trigger] graph.touches(p, positions@) ==> has_reading(world, p)
            &&& graph.slot_count() + positions@.len() <= u32::MAX
            &&& graph.edge_total() + readings_total(world) <= usize::MAX
        },
        InvalidationPlan::Full { .. } => {
            &&& readings_distinct(world)
            &&& world.len() <= u32::MAX
            &&& readings_total(world) <= usize::MAX
        },
    }
}

/// The outputs that synchronizing the first `k` changed sources sends, in
/// order: the position and output of each change that has an output.
pub open spec fn source_updates(
    changes: Seq<(BlockPos, BlockStateId)>,
    outputs: Seq<Option<u8>>,
    k: int,
) -> Seq<(BlockPos, u8)>
    decreases k,
{
    if k <= 0 {
        Seq::empty()
    } else {
        let earlier = source_updates(changes, outputs, k - 1);
        match outputs[k - 1] {
            Some(output) => earlier.push((changes[k - 1].0, output)),
            None => earlier,
        }
    }
}

/// Whether the `j`-th change has an output but no node of `network` at its
/// position.
pub open spec fn lacks_node(
    network: StaticNetwork,
    changes: Seq<(BlockPos, BlockStateId)>,
    outputs: Seq<Option<u8>>,
    j: int,
) -> bool {
    outputs[j] is Some && !network.positions.has(changes[j].0)
}

/// What synchronizing the first `k` changed sources leaves of the network
/// state `before` in `after`: the same network; the output levels after
/// sending each output to the node at its position; the disabled wires
/// kept, with those an update starts at a source position without a node
/// added, and unchanged where every such position has a node.
pub open spec fn synced_sources(
    before: NetworkState,
    after: NetworkState,
    changes: Seq<(BlockPos, BlockStateId)>,
    outputs: Seq<Option<u8>>,
    k: int,
) -> bool {
    let network = before.network();
    &&& after.network() == network
    &&& after.network_runtime().output_levels() == apply_levels(
        network,
        before.network_runtime().output_levels(),
        source_updates(changes, outputs, k),
    )
    &&& after.disabled().len() == before.disabled().len()
    &&& forall|i: int| 0 <= i < before.disabled().len() && #[trigger] before.disabled()[i] ==> after.disabled()[i]
    &&& forall|j: int| 0 <= j < k && #[trigger] lacks_node(network, changes, outputs, j) ==> forall|wire: NetworkWireId|
        network.wires.starts_change(changes[j].0, wire) && wire.0 < after.disabled().len()
            ==> #[trigger] after.disabled()[wire.0 as int]
    &&& (forall|j: int| 0 <= j < k ==> !#[trigger] lacks_node(network, changes, outputs, j)) ==> after.disabled()
        == before.disabled() && after.disabled_total() == before.disabled_total()
}

/// Why a synchronization could not finish: the dense network had to be
/// built anew and no new network came with the changes.
#[derive(Clone, Copy, Debug, PartialEq, Eq, Structural)]
pub struct NetworkRebuildMissing;

impl CompiledRuntime {
    /// Whether answering `plan` builds the dense network anew: it is
    /// enabled and a topology change of the plan reaches it.
    pub open spec fn rebuilds_network(&self, plan: &InvalidationPlan) -> bool {
        self.network_state() is Some && plan_network_positions(plan).len() > 0
    }

    /// The nodes and wires a new network counts, saturating.
    pub open spec fn network_size(network: NetworkState) -> usize {
        add_capped_usize(network.network().node_total() as usize, network.network().wires.count() as usize)
    }

    /// Installs a newly built network and counts the rebuild; gives its
    /// nodes and wires, saturating.
    fn install_network(&mut self, network: NetworkState) -> (size: usize)
        requires
            old(self).valid(),
            network.valid(),
        ensures
            final(self).valid(),
            size == Self::network_size(network),
            final(self).network_state() == Some(network),
            final(self).node_graph() == old(self).node_graph(),
            final(self).counters() == ({
                let c = old(self).counters();
                (c.0, c.1, c.2, c.3, add_capped(c.4, 1), c.5)
            }),
    {
        let size = saturating_usize(network.graph().node_count(), network.graph().wire_count());
        self.network = Some(network);
        self.dense_full_rebuilds = saturating_u64(self.dense_full_rebuilds, 1);
        size
    }

    /// Hands the network the outputs of the changed blocks that are
    /// sources, in order: `outputs[i]` belongs to the `i`-th change. The
    /// node at each such position takes its output; where no node stands,
    /// the wires an update there starts are disabled instead.
    fn synchronize_state_sources(&mut self, changes: &[(BlockPos, BlockStateId)], outputs: &[Option<u8>])
        requires
            old(self).valid(),
            outputs@.len() == changes@.len(),
        ensures
            final(self).valid(),
            final(self).node_graph() == old(self).node_graph(),
            final(self).counters() == old(self).counters(),
            final(self).network_state() is Some == old(self).network_state() is Some,
            final(self).network_state() matches Some(after) ==> synced_sources(
                old(self).network_state()->0,
                after,
                changes@,
                outputs@,
                changes@.len() as int,
            ),
            final(self).network_state() matches Some(after) ==> after.network_runtime().fast_enabled()
                == old(self).network_state()->0.network_runtime().fast_enabled(),
    {
        let mut k: usize = 0;
        while k < changes.len()
            invariant
                self.valid(),
                k <= changes@.len(),
                outputs@.len() == changes@.len(),
                self.node_graph() == old(self).node_graph(),
                self.counters() == old(self).counters(),
                self.network_state() is Some == old(self).network_state() is Some,
                self.network_state() matches Some(after) ==> synced_sources(
                    old(self).network_state()->0,
                    after,
                    changes@,
                    outputs@,
                    k as int,
                ),
                self.network_state() matches Some(after) ==> after.network_runtime().fast_enabled()
                    == old(self).network_state()->0.network_runtime().fast_enabled(),
            decreases changes@.len() - k,
        {
            let ghost before = *self;
            match outputs[k] {
                Some(output) => match &mut self.network {
                    Some(network) => {
                        network.synchronize_source(changes[k].0, output);
                    },
                    None => {},
                },
                None => {},
            }
            proof {
                if self.network_state() is Some {
                    let start = old(self).network_state()->0;
                    let mid = before.network_state()->0;
                    let after = self.network_state()->0;
                    let net = start.network();
                    let pos = changes@[k as int].0;
                    let updates = source_updates(changes@, outputs@, k as int);
                    assert(source_updates(changes@, outputs@, k + 1) == match outputs@[k as int] {
                        Some(o) => updates.push((pos, o)),
                        None => updates,
                    });
                    if let Some(o) = outputs@[k as int] {
                        assert(updates.push((pos, o)).drop_last() =~= updates);
                    }
                    assert(synced_sources(start, mid, changes@, outputs@, k as int));
                    assert(after.network() == net);
                    assert(after.network_runtime().output_levels() == apply_levels(
                        net,
                        start.network_runtime().output_levels(),
                        source_updates(changes@, outputs@, k + 1),
                    ));
                    assert(after.disabled().len() == start.disabled().len());
                    assert(forall|i: int| 0 <= i < start.disabled().len() && #[trigger] start.disabled()[i] ==> after.disabled()[i]);
                    if forall|j: int| 0 <= j < k + 1 ==> !#[trigger] lacks_node(net, changes@, outputs@, j) {
                        assert(forall|j: int| 0 <= j < k ==> !#[trigger] lacks_node(net, changes@, outputs@, j));
                        assert(!lacks_node(net, changes@, outputs@, k as int));
                        assert(mid.disabled() == start.disabled() && mid.disabled_total() == start.disabled_total());
                        assert(after.disabled() == mid.disabled() && after.disabled_total() == mid.disabled_total());
                    }
                    assert forall|j: int| 0 <= j < k + 1 && #[trigger] lacks_node(net, changes@, outputs@, j) implies forall|
                        wire: NetworkWireId,
                    |
                        net.wires.starts_change(changes@[j].0, wire) && wire.0 < after.disabled().len()
                            ==> #[trigger] after.disabled()[wire.0 as int] by {
                        if j < k {
                            assert(synced_sources(start, mid, changes@, outputs@, k as int));
                            assert forall|wire: NetworkWireId|
                                net.wires.starts_change(changes@[j].0, wire) && wire.0 < after.disabled().len()
                                    implies #[trigger] after.disabled()[wire.0 as int] by {
                                assert(wire.0 < mid.disabled().len());
                                assert(mid.disabled()[wire.0 as int]);
                            }
                        }
                    }
                }
            }
            k += 1;
        }
    }

    /// Answers a planned batch of block changes. States only: the graph
    /// records them. A local rebuild: unless a change reaches the dense
    /// network, the network's nodes near the changed positions leave the
    /// fast path; the graph records the states and rebuilds the planned
    /// positions from `world`; a change that reaches the network installs
    /// `rebuilt`. A full rebuild: the graph is compiled anew from `world`,
    /// and the network either takes every node off the fast path or, when a
    /// change reaches it, is replaced by `rebuilt`. Finally the network
    /// takes the outputs of the changed sources, `source_outputs[i]` for the
    /// `i`-th recorded state. Fails, with the graph already rebuilt, when
    /// the network must be replaced and `rebuilt` is none.
    pub fn synchronize(
        &mut self,
        plan: InvalidationPlan,
        world: &[BlockReading],
        rebuilt: Option<NetworkState>,
        source_outputs: &[Option<u8>],
    ) -> (result: Result<Synchronization, NetworkRebuildMissing>)
        requires
            old(self).valid(),
            rebuilt matches Some(n) ==> n.valid(),
            source_outputs@.len() == plan_states(&plan).len(),
            readings_fit(&old(self).node_graph(), &plan, world@),
        ensures
            final(self).valid(),
            result is Err <==> (old(self).rebuilds_network(&plan) && rebuilt is None),
            final(self).network_state() is Some == old(self).network_state() is Some,
            result is Ok ==> (final(self).network_state() matches Some(after) ==> after.network() == if old(
                self,
            ).rebuilds_network(&plan) {
                rebuilt->0.network()
            } else {
                old(self).network_state()->0.network()
            }),
            result is Ok ==> (final(self).network_state() matches Some(after) ==> {
                let rebuilds = old(self).rebuilds_network(&plan);
                let base = if rebuilds {
                    rebuilt->0
                } else {
                    old(self).network_state()->0
                };
                let enabled = base.network_runtime().fast_enabled();
                &&& synced_sources(base, after, plan_states(&plan), source_outputs@, plan_states(&plan).len() as int)
                &&& after.network_runtime().fast_enabled().len() == enabled.len()
                &&& forall|i: int|
                    0 <= i < enabled.len() ==> #[trigger] after.network_runtime().fast_enabled()[i] == (enabled[i]
                        && (rebuilds || keeps_fast_input(&plan, &base.network(), i)))
            }),
            result matches Ok(sync) ==> {
                let net = if old(self).rebuilds_network(&plan) {
                    Self::network_size(rebuilt->0)
                } else {
                    0
                };
                let c = old(self).counters();
                let before = old(self).node_graph();
                let after = final(self).node_graph();
                &&& !sync.fallback_to_interpreted
                &&& sync.full_recompile == plan is Full
                &&& match plan {
                    InvalidationPlan::StateOnly { state_changes } => {
                        &&& sync.recompiled_nodes == 0
                        &&& final(self).counters() == c
                        &&& states_recorded(&before, &after, state_changes@)
                    },
                    InvalidationPlan::Local { positions, .. } => {
                        &&& forall|p: BlockPos| #[trigger] positions@.contains(p) ==> recompiled_at(&before, &after, p,
                            reading_of(world@, p))
                        &&& forall|p: BlockPos| !positions@.contains(p) ==> #[trigger] after.id_at(p) == before.id_at(p)
                        &&& exists|ids: Seq<NodeId>| {
                            &&& ids.no_duplicates()
                            &&& sync.recompiled_nodes == add_capped_usize(ids.len() as usize, net)
                            &&& forall|y: NodeId| #[trigger] ids.contains(y) <==> (after.live(y) && (positions@.contains(
                                after.node_of(y).pos) || before.touches(after.node_of(y).pos, positions@)))
                        }
                        &&& final(self).counters() == (
                            c.0,
                            c.1,
                            if sync.recompiled_nodes > 0 {
                                add_capped(c.2, 1)
                            } else {
                                c.2
                            },
                            c.3,
                            if old(self).rebuilds_network(&plan) {
                                add_capped(c.4, 1)
                            } else {
                                c.4
                            },
                            add_capped(c.5, sync.recompiled_nodes as u64),
                        )
                    },
                    InvalidationPlan::Full { .. } => {
                        &&& forall|p: BlockPos| #[trigger] after.id_at(p) is Some <==> (has_reading(world@, p)
                            && crate::compiled::graph::compiles(reading_of(world@, p).signature))
                        &&& forall|p: BlockPos| match #[trigger] after.id_at(p) {
                            Some(y) => {
                                let r = reading_of(world@, p);
                                &&& after.node_of(y).state == r.state
                                &&& Some(after.node_of(y).signature) == r.signature
                                &&& positions_ascending(after.node_of(y).dependencies@)
                                &&& forall|q: BlockPos| after.node_of(y).dependencies@.contains(q)
                                    <==> r.dependencies@.contains(q)
                            },
                            None => true,
                        }
                        &&& sync.recompiled_nodes == add_capped_usize(after.node_total() as usize, net)
                        &&& final(self).counters() == (
                            c.0,
                            c.1,
                            c.2,
                            add_capped(c.3, 1),
                            if old(self).rebuilds_network(&plan) {
                                add_capped(c.4, 1)
                            } else {
                                c.4
                            },
                            add_capped(c.5, sync.recompiled_nodes as u64),
                        )
                    },
                }
            },
    {
        let ghost start = *self;
        let ghost plan_copy = plan;
        let state_changes: Vec<(BlockPos, BlockStateId)>;
        let mut sync = Synchronization { full_recompile: false, recompiled_nodes: 0, fallback_to_interpreted: false };
        match plan {
            InvalidationPlan::StateOnly { state_changes: changes } => {
                self.apply_state_changes(changes.as_slice());
                state_changes = changes;
            },
            InvalidationPlan::Local { state_changes: changes, topology_positions, network_topology_positions, positions } => {
                let mut rebuild = false;
                match &mut self.network {
                    Some(network) => {
                        rebuild = network.apply_topology_changes(
                            false,
                            topology_positions.as_slice(),
                            network_topology_positions.as_slice(),
                        );
                    },
                    None => {},
                }
                let ghost before_states = self.graph;
                self.apply_state_changes(changes.as_slice());
                let ghost mid = self.graph;
                proof {
                    assert forall|p: BlockPos| #[trigger] mid.touches(p, positions@) == before_states.touches(p, positions@) by {
                        match mid.id_at(p) {
                            Some(x) => {
                                if mid.touches(p, positions@) {
                                    let q = choose|q: BlockPos| #[trigger] positions@.contains(q) && mid.reads(x, q);
                                    assert(before_states.reads(x, q));
                                }
                                if before_states.touches(p, positions@) {
                                    let q = choose|q: BlockPos| #[trigger] positions@.contains(q) && before_states.reads(x, q);
                                    assert(mid.reads(x, q));
                                }
                            },
                            None => {},
                        }
                    }
                }
                let recompiled = self.graph.recompile_positions(positions.as_slice(), world);
                let network_recompiled = if rebuild {
                    match rebuilt {
                        Some(network) => self.install_network(network),
                        None => {
                            return Err(NetworkRebuildMissing);
                        },
                    }
                } else {
                    0
                };
                sync.recompiled_nodes = saturating_usize(recompiled, network_recompiled);
                if sync.recompiled_nodes > 0 {
                    self.partial_recompilations = saturating_u64(self.partial_recompilations, 1);
                }
                self.recompiled_nodes = saturating_u64(self.recompiled_nodes, sync.recompiled_nodes as u64);
                proof {
                    let after = self.graph;
                    assert forall|p: BlockPos| #[trigger] positions@.contains(p) implies recompiled_at(&start.graph, &after, p,
                        reading_of(world@, p)) by {
                        assert(recompiled_at(&mid, &after, p, reading_of(world@, p)));
                        match start.graph.id_at(p) {
                            Some(x) => {
                                law_graph_consistent(&start.graph);
                                assert(start.graph.live(x));
                                assert(mid.node_of(x).signature == start.graph.node_of(x).signature);
                            },
                            None => {},
                        }
                        match after.id_at(p) {
                            Some(y) => {
                                assert(mid.live(y) == start.graph.live(y));
                            },
                            None => {},
                        }
                    }
                    let ids = choose|ids: Seq<NodeId>| {
                        &&& ids.no_duplicates()
                        &&& ids.len() == recompiled
                        &&& forall|y: NodeId| #[trigger] ids.contains(y) <==> (after.live(y) && (positions@.contains(
                            after.node_of(y).pos) || mid.touches(after.node_of(y).pos, positions@)))
                    };
                    assert forall|y: NodeId| #[trigger] ids.contains(y) <==> (after.live(y) && (positions@.contains(
                        after.node_of(y).pos) || start.graph.touches(after.node_of(y).pos, positions@))) by {
                        assert(mid.touches(after.node_of(y).pos, positions@) == before_states.touches(
                            after.node_of(y).pos,
                            positions@,
                        ));
                    }
                }
                state_changes = changes;
            },
            InvalidationPlan::Full { state_changes: changes, network_topology_positions } => {
                self.graph = CompiledGraph::compile(world);
                let mut rebuild = false;
                match &mut self.network {
                    Some(network) => {
                        let nothing: Vec<BlockPos> = Vec::new();
                        rebuild = network.apply_topology_changes(
                            true,
                            nothing.as_slice(),
                            network_topology_positions.as_slice(),
                        );
                    },
                    None => {},
                }
                let network_recompiled = if rebuild {
                    match rebuilt {
                        Some(network) => self.install_network(network),
                        None => {
                            return Err(NetworkRebuildMissing);
                        },
                    }
                } else {
                    0
                };
                sync.full_recompile = true;
                self.full_recompilations = saturating_u64(self.full_recompilations, 1);
                sync.recompiled_nodes = saturating_usize(self.graph.node_count(), network_recompiled);
                self.recompiled_nodes = saturating_u64(self.recompiled_nodes, sync.recompiled_nodes as u64);
                state_changes = changes;
            },
        }
        let ghost mid = *self;
        proof {
            assert(state_changes@ == plan_states(&plan_copy));
        }
        self.synchronize_state_sources(state_changes.as_slice(), source_outputs);
        proof {
            if self.network_state() is Some {
                let base = if start.rebuilds_network(&plan_copy) {
                    rebuilt->0
                } else {
                    start.network_state()->0
                };
                assert(mid.network_state()->0.network() == base.network());
                assert(mid.network_state()->0.network_runtime().output_levels() == base.network_runtime().output_levels());
                assert(mid.network_state()->0.disabled() == base.disabled());
                assert(mid.network_state()->0.disabled_total() == base.disabled_total());
            }
        }
        Ok(sync)
    }
}

/// The value a list of position outputs holds for `pos`, if any: that of
/// its first entry there.
pub open spec fn output_for(outputs: Seq<(BlockPos, u8)>, pos: BlockPos) -> Option<u8>
    decreases outputs.len(),
{
    if outputs.len() == 0 {
        None
    } else if outputs[0].0 == pos {
        Some(outputs[0].1)
    } else {
        output_for(outputs.drop_first(), pos)
    }
}

/// The updates that replacing comparator outputs sends for the new
/// outputs, in order: each new output whose value changed.
pub open spec fn changed_updates(previous: Seq<(BlockPos, u8)>, outputs: Seq<(BlockPos, u8)>) -> Seq<(BlockPos, u8)>
    decreases outputs.len(),
{
    if outputs.len() == 0 {
        Seq::empty()
    } else {
        let earlier = changed_updates(previous, outputs.drop_last());
        let (pos, value) = outputs.last();
        if output_for(previous, pos) == Some(value) {
            earlier
        } else {
            earlier.push((pos, value))
        }
    }
}

/// The updates that replacing comparator outputs sends for the dropped
/// outputs, in order: zero for each old position without a new output.
pub open spec fn dropped_updates(previous: Seq<(BlockPos, u8)>, outputs: Seq<(BlockPos, u8)>) -> Seq<(BlockPos, u8)>
    decreases previous.len(),
{
    if previous.len() == 0 {
        Seq::empty()
    } else {
        let earlier = dropped_updates(previous.drop_last(), outputs);
        let pos = previous.last().0;
        if output_for(outputs, pos) is None {
            earlier.push((pos, 0u8))
        } else {
            earlier
        }
    }
}

/// The node output levels after sending `updates` to `network`: each update
/// at a position with a node sets that node's level, capped at 15.
pub open spec fn apply_levels(network: StaticNetwork, levels: Seq<u8>, updates: Seq<(BlockPos, u8)>) -> Seq<u8>
    decreases updates.len(),
{
    if updates.len() == 0 {
        levels
    } else {
        let earlier = apply_levels(network, levels, updates.drop_last());
        let (pos, value) = updates.last();
        if network.positions.has(pos) && network.positions.at(pos).0 < network.node_total() {
            earlier.update(
                network.positions.at(pos).0 as int,
                if value > 15 {
                    15u8
                } else {
                    value
                },
            )
        } else {
            earlier
        }
    }
}

/// Looks the value of `pos` up in a list of position outputs: that of its
/// first entry there.
fn find_output(outputs: &[(BlockPos, u8)], pos: BlockPos) -> (found: Option<u8>)
    ensures
        found == output_for(outputs@, pos),
{
    let mut i: usize = 0;
    proof {
        assert(outputs@.skip(0) =~= outputs@);
    }
    while i < outputs.len()
        invariant
            i <= outputs@.len(),
            output_for(outputs@, pos) == output_for(outputs@.skip(i as int), pos),
        decreases outputs@.len() - i,
    {
        let ghost rest = outputs@.skip(i as int);
        if outputs[i].0.same(&pos) {
            proof {
                assert(rest[0] == outputs@[i as int]);
            }
            return Some(outputs[i].1);
        }
        proof {
            assert(rest[0] == outputs@[i as int]);
            assert(outputs@.skip(i + 1) =~= rest.drop_first());
        }
        i += 1;
    }
    proof {
        assert(outputs@.skip(i as int) =~= Seq::<(BlockPos, u8)>::empty());
    }
    None
}

impl CompiledRuntime {
    /// Replaces the comparator outputs `previous` by `outputs`: first each
    /// new output whose value changed goes to the network node at its
    /// position, then zero goes to the node at each old position without a
    /// new output; wire powers are not propagated.
    pub fn replace_comparator_outputs(&mut self, previous: &[(BlockPos, u8)], outputs: &[(BlockPos, u8)])
        requires
            old(self).valid(),
        ensures
            final(self).valid(),
            final(self).node_graph() == old(self).node_graph(),
            final(self).counters() == old(self).counters(),
            final(self).network_state() is Some == old(self).network_state() is Some,
            final(self).network_state() matches Some(after) ==> {
                let before = old(self).network_state()->0;
                let network = before.network();
                &&& after.network() == network
                &&& after.disabled() == before.disabled()
                &&& after.network_runtime().output_levels() == apply_levels(
                    network,
                    apply_levels(network, before.network_runtime().output_levels(), changed_updates(previous@, outputs@)),
                    dropped_updates(previous@, outputs@),
                )
            },
    {
        let ghost start = *self;
        let mut k: usize = 0;
        while k < outputs.len()
            invariant
                self.valid(),
                k <= outputs@.len(),
                self.node_graph() == start.node_graph(),
                self.counters() == start.counters(),
                self.network_state() is Some == start.network_state() is Some,
                self.network_state() matches Some(after) ==> {
                    let before = start.network_state()->0;
                    let network = before.network();
                    &&& after.network() == network
                    &&& after.disabled() == before.disabled()
                    &&& after.network_runtime().output_levels() == apply_levels(
                        network,
                        before.network_runtime().output_levels(),
                        changed_updates(previous@, outputs@.take(k as int)),
                    )
                },
            decreases outputs@.len() - k,
        {
            let (pos, output) = outputs[k];
            proof {
                let next = outputs@.take(k + 1);
                assert(next.drop_last() =~= outputs@.take(k as int));
                assert(next.last() == (pos, output));
            }
            if find_output(previous, pos) != Some(output) {
                let ghost earlier = changed_updates(previous@, outputs@.take(k as int));
                self.update_network_source_deferred(pos, output);
                proof {
                    let updates = earlier.push((pos, output));
                    assert(updates.drop_last() =~= earlier);
                }
            }
            k += 1;
        }
        proof {
            assert(outputs@.take(outputs@.len() as int) =~= outputs@);
        }
        let ghost middle = *self;
        let mut k: usize = 0;
        while k < previous.len()
            invariant
                self.valid(),
                k <= previous@.len(),
                self.node_graph() == start.node_graph(),
                self.counters() == start.counters(),
                self.network_state() is Some == start.network_state() is Some,
                middle.network_state() is Some == start.network_state() is Some,
                middle.network_state() matches Some(m) ==> m.network() == start.network_state()->0.network(),
                self.network_state() matches Some(after) ==> {
                    let before = middle.network_state()->0;
                    let network = before.network();
                    &&& after.network() == network
                    &&& after.disabled() == before.disabled()
                    &&& after.network_runtime().output_levels() == apply_levels(
                        network,
                        before.network_runtime().output_levels(),
                        dropped_updates(previous@.take(k as int), outputs@),
                    )
                },
            decreases previous@.len() - k,
        {
            let pos = previous[k].0;
            proof {
                let next = previous@.take(k + 1);
                assert(next.drop_last() =~= previous@.take(k as int));
                assert(next.last().0 == pos);
            }
            if find_output(outputs, pos).is_none() {
                let ghost earlier = dropped_updates(previous@.take(k as int), outputs@);
                self.update_network_source_deferred(pos, 0);
                proof {
                    let updates = earlier.push((pos, 0u8));
                    assert(updates.drop_last() =~= earlier);
                }
            }
            k += 1;
        }
        proof {
            assert(previous@.take(previous@.len() as int) =~= previous@);
        }
    }
}

} // verus!
