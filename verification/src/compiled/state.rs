//! A compiled network with its runtime and the wires it no longer trusts:
//! a topology change disables every wire its update can reach.

use std::collections::VecDeque;

use vstd::prelude::*;

use crate::compiled::csr::csr_valid;
use crate::compiled::dense::DenseWireGraph;
use crate::compiled::network::{flagged, NetworkWireId};
use crate::compiled::runtime::{
    anchored_wires, anchors_in_range, chained, events_valid, lemma_network_ready_tables, lists_node, lists_wire,
    network_ready, node_input, replay, source_max, NetworkRuntime, OrderedPropagationError, OrderedWireEvent,
    WirePowerTransition, silenced, propagation_error_allowed, buckets_restored, origin_outcome, clean_settled, walk, ORDERED_PROPAGATION_LIMIT,
};
use crate::compiled::static_network::StaticNetwork;
use crate::position::BlockPos;

verus! {

/// Marks wire `wire` disabled; true when it was enabled and is now disabled,
/// false when it was already disabled or is no wire of the table.
pub fn disable_wire(disabled_wires: &mut Vec<bool>, wire: NetworkWireId) -> (changed: bool)
    ensures
        changed == (wire.0 < old(disabled_wires)@.len() && !old(disabled_wires)@[wire.0 as int]),
        final(disabled_wires)@ == (if wire.0 < old(disabled_wires)@.len() {
            old(disabled_wires)@.update(wire.0 as int, true)
        } else {
            old(disabled_wires)@
        }),
{
    let index = wire.index();
    if index >= disabled_wires.len() {
        return false;
    }
    if disabled_wires[index] {
        proof {
            assert(disabled_wires@.update(index as int, true) =~= disabled_wires@);
        }
        return false;
    }
    disabled_wires.set(index, true);
    true
}

/// How many wires are disabled in `now` but were not in `before`, over the
/// first `upto` slots.
pub open spec fn newly_disabled(now: Seq<bool>, before: Seq<bool>, upto: int) -> nat
    decreases upto,
{
    if upto <= 0 {
        0
    } else {
        newly_disabled(now, before, upto - 1) + if now[upto - 1] && !before[upto - 1] {
            1nat
        } else {
            0nat
        }
    }
}

/// How many of the first `upto` slots are still enabled.
pub open spec fn enabled_count(now: Seq<bool>, upto: int) -> nat
    decreases upto,
{
    if upto <= 0 {
        0
    } else {
        enabled_count(now, upto - 1) + if !now[upto - 1] {
            1nat
        } else {
            0nat
        }
    }
}

proof fn lemma_disable_counts(now: Seq<bool>, before: Seq<bool>, i: int, upto: int)
    requires
        0 <= i < now.len(),
        upto <= now.len(),
        !now[i],
        !before[i],
    ensures
        newly_disabled(now.update(i, true), before, upto) == newly_disabled(now, before, upto) + if i < upto {
            1nat
        } else {
            0nat
        },
        enabled_count(now.update(i, true), upto) + if i < upto {
            1nat
        } else {
            0nat
        } == enabled_count(now, upto),
    decreases upto,
{
    if upto > 0 {
        lemma_disable_counts(now, before, i, upto - 1);
    }
}

proof fn lemma_newly_bounded(now: Seq<bool>, before: Seq<bool>, upto: int)
    requires
        0 <= upto,
    ensures
        newly_disabled(now, before, upto) <= upto,
    decreases upto,
{
    if upto > 0 {
        lemma_newly_bounded(now, before, upto - 1);
    }
}

/// Whether every wire next to wire `w` (a wire in its ordered list, a
/// dependent or a predecessor) that is a wire of the table is disabled.
pub open spec fn spread(graph: &DenseWireGraph, disabled: Seq<bool>, w: int) -> bool {
    &&& forall|k: int|
        0 <= k < graph.ordered_targets_of(w).len() ==> {
            let t = #[trigger] graph.ordered_targets_of(w)[k];
            !flagged(t.0) && t.0 < disabled.len() ==> disabled[t.0 as int]
        }
    &&& forall|k: int|
        0 <= k < graph.dependents_of(w).len() ==> {
            let t = #[trigger] graph.dependents_of(w)[k];
            t.0 < disabled.len() ==> disabled[t.0 as int]
        }
    &&& forall|k: int|
        0 <= k < graph.predecessors_of(w).len() ==> {
            let t = #[trigger] graph.predecessors_of(w)[k];
            t.0 < disabled.len() ==> disabled[t.0 as int]
        }
}

/// Whether `queue` names wire `w`.
pub open spec fn waiting(queue: Seq<NetworkWireId>, w: int) -> bool {
    exists|i: int| 0 <= i < queue.len() && #[trigger] queue[i].0 == w
}

/// Whether every newly disabled wire has spread to its neighbours or still
/// waits in `queue`.
#[verifier::opaque]
pub open spec fn spreading(graph: &DenseWireGraph, now: Seq<bool>, before: Seq<bool>, queue: Seq<NetworkWireId>) -> bool {
    forall|w: int|
        0 <= w < now.len() && now[w] && !before[w] ==> waiting(queue, w) || #[trigger] spread(graph, now, w)
}

/// Disables wire `wire` if it is enabled, and queues it.
fn queue_disabled(disabled_wires: &mut Vec<bool>, wire: NetworkWireId, queue: &mut VecDeque<NetworkWireId>, count: &mut usize, Ghost(before): Ghost<Seq<bool>>)
    requires
        old(disabled_wires)@.len() == before.len(),
        forall|i: int| 0 <= i < before.len() && #[trigger] before[i] ==> old(disabled_wires)@[i],
        *old(count) == newly_disabled(old(disabled_wires)@, before, before.len() as int),
        forall|i: int| 0 <= i < old(queue)@.len() ==> #[trigger] old(queue)@[i].0 < before.len(),
    ensures
        final(disabled_wires)@ == (if wire.0 < before.len() {
            old(disabled_wires)@.update(wire.0 as int, true)
        } else {
            old(disabled_wires)@
        }),
        final(disabled_wires)@.len() == before.len(),
        *final(count) == newly_disabled(final(disabled_wires)@, before, before.len() as int),
        final(queue)@ == (if wire.0 < before.len() && !old(disabled_wires)@[wire.0 as int] {
            old(queue)@.push(wire)
        } else {
            old(queue)@
        }),
        forall|i: int| 0 <= i < final(queue)@.len() ==> #[trigger] final(queue)@[i].0 < before.len(),
        enabled_count(final(disabled_wires)@, before.len() as int) + (final(queue)@.len() - old(queue)@.len())
            == enabled_count(old(disabled_wires)@, before.len() as int),
{
    let ghost prior = disabled_wires@;
    let len = disabled_wires.len();
    let changed = disable_wire(disabled_wires, wire);
    if changed {
        proof {
            assert(!before[wire.0 as int]);
            lemma_disable_counts(prior, before, wire.0 as int, before.len() as int);
            lemma_newly_bounded(disabled_wires@, before, before.len() as int);
        }
        *count = *count + 1;
        queue.push_back(wire);
        proof {
            assert forall|i: int| 0 <= i < queue@.len() implies #[trigger] queue@[i].0 < before.len() by {
                if i < queue@.len() - 1 {
                    assert(queue@[i] == old(queue)@[i]);
                }
            }
        }
    } else {
        proof {
            if wire.0 < before.len() {
                assert(prior.update(wire.0 as int, true) =~= prior);
            }
        }
    }
}

/// A wire power change resolved against the network: the wire's slot and
/// position, and the range of its observers in the observer table.
#[derive(Clone, Copy, Debug, PartialEq, Eq, Structural)]
pub struct CompiledWireTransition {
    pub wire: u32,
    pub pos: BlockPos,
    pub old_power: u8,
    pub new_power: u8,
    pub observer_start: u32,
    pub observer_count: u8,
}

/// A compiled network, its runtime, and the wires disabled since it was built.
pub struct NetworkState {
    graph: StaticNetwork,
    runtime: NetworkRuntime,
    disabled_wires: Vec<bool>,
    disabled_wire_count: usize,
}

impl NetworkState {
    /// Which wires are disabled.
    pub closed spec fn disabled(&self) -> Seq<bool> {
        self.disabled_wires@
    }

    /// The compiled network.
    pub closed spec fn network(&self) -> StaticNetwork {
        self.graph
    }

    /// The runtime.
    pub closed spec fn network_runtime(&self) -> NetworkRuntime {
        self.runtime
    }

    /// How many wires have been disabled, saturating.
    pub closed spec fn disabled_total(&self) -> usize {
        self.disabled_wire_count
    }

    /// The runtime runs on the network, and there is one flag per wire.
    pub closed spec fn valid(&self) -> bool {
        &&& network_ready(&self.graph)
        &&& anchors_in_range(&self.graph)
        &&& self.runtime.inv(&self.graph)
        &&& self.disabled_wires@.len() == self.graph.wires.count()
    }

    /// A state with no wire disabled.
    pub fn new(graph: StaticNetwork, runtime: NetworkRuntime) -> (state: NetworkState)
        requires
            network_ready(&graph),
            anchors_in_range(&graph),
            runtime.inv(&graph),
        ensures
            state.valid(),
            state.disabled().len() == graph.wires.count(),
            forall|i: int| 0 <= i < state.disabled().len() ==> !(#[trigger] state.disabled()[i]),
            state.disabled_total() == 0,
            state.network() == graph,
            state.network_runtime() == runtime,
    {
        let count = graph.wire_count();
        let mut disabled_wires: Vec<bool> = Vec::new();
        let mut i: usize = 0;
        while i < count
            invariant
                i <= count,
                disabled_wires@.len() == i,
                forall|j: int| 0 <= j < i ==> !(#[trigger] disabled_wires@[j]),
            decreases count - i,
        {
            disabled_wires.push(false);
            i += 1;
        }
        NetworkState { graph, runtime, disabled_wires, disabled_wire_count: 0 }
    }

    /// The compiled network.
    pub fn graph(&self) -> (graph: &StaticNetwork)
        ensures
            *graph == self.network(),
    {
        &self.graph
    }

    /// The runtime.
    pub fn runtime(&self) -> (runtime: &NetworkRuntime)
        ensures
            *runtime == self.network_runtime(),
    {
        &self.runtime
    }

    /// Whether wire `wire` is disabled.
    pub fn is_disabled(&self, wire: NetworkWireId) -> (result: bool)
        ensures
            result == (wire.0 < self.disabled().len() && self.disabled()[wire.0 as int]),
    {
        wire.index() < self.disabled_wires.len() && self.disabled_wires[wire.index()]
    }

    /// The disabled flags of the wires, by wire.
    pub fn disabled_wires(&self) -> (flags: &[bool])
        ensures
            flags@ == self.disabled(),
    {
        self.disabled_wires.as_slice()
    }

    /// How many wires have been disabled, saturating.
    pub fn disabled_wire_count(&self) -> (count: usize)
        ensures
            count == self.disabled_total(),
    {
        self.disabled_wire_count
    }

    /// Disables every wire that an update starting at one of `positions`
    /// can reach: the wires where it starts, then, from each newly disabled
    /// wire, the wires in its ordered list, its dependents and its
    /// predecessors. Returns how many wires it disabled and adds them to the
    /// running total, saturating.
    pub fn disable_positions(&mut self, positions: &[BlockPos]) -> (count: usize)
        requires
            old(self).valid(),
        ensures
            final(self).valid(),
            final(self).disabled().len() == old(self).disabled().len(),
            forall|i: int| 0 <= i < old(self).disabled().len() && #[trigger] old(self).disabled()[i] ==> final(self).disabled()[i],
            forall|p: int, wire: NetworkWireId|
                0 <= p < positions@.len() && old(self).network().wires.starts_change(#[trigger] positions@[p], wire)
                    && wire.0 < old(self).disabled().len() ==> #[trigger] final(self).disabled()[wire.0 as int],
            forall|w: int|
                0 <= w < final(self).disabled().len() && #[trigger] final(self).disabled()[w] && !old(self).disabled()[w]
                    ==> spread(&old(self).network().wires, final(self).disabled(), w),
            count == newly_disabled(final(self).disabled(), old(self).disabled(), old(self).disabled().len() as int),
            final(self).disabled_total() == (if old(self).disabled_total() + count > usize::MAX {
                usize::MAX as int
            } else {
                old(self).disabled_total() + count
            }),
            final(self).network() == old(self).network(),
            final(self).network_runtime() == old(self).network_runtime(),
    {
        let ghost before = self.disabled_wires@;
        let ghost n = before.len() as int;
        let mut queue: VecDeque<NetworkWireId> = VecDeque::new();
        let mut count: usize = 0;
        proof {
            lemma_network_ready_tables(&self.graph);
            assert(newly_disabled(before, before, n) == 0) by {
                lemma_none_new(before, n);
            }
            reveal(spreading);
        }
        self.disable_starts(positions, &mut queue, &mut count, Ghost(before));
        self.drain(&mut queue, &mut count, Ghost(before), Ghost(positions@));
        proof {
            reveal(spreading);
            assert forall|w: int|
                0 <= w < n && #[trigger] self.disabled_wires@[w] && !before[w] implies spread(&self.graph.wires, self.disabled_wires@, w) by {
                assert(!waiting(queue@, w));
            }
        }
        self.disabled_wire_count = if count > usize::MAX - self.disabled_wire_count {
            usize::MAX
        } else {
            self.disabled_wire_count + count
        };
        count
    }

    /// Sets the output of the node at `pos`, capped at 15, and refreshes the
    /// direct power and fast inputs that read it, without propagating wire
    /// powers; nothing changes when no node stands at `pos`.
    pub fn update_source_deferred(&mut self, pos: BlockPos, output: u8)
        requires
            old(self).valid(),
        ensures
            final(self).valid(),
            final(self).network() == old(self).network(),
            final(self).disabled() == old(self).disabled(),
            final(self).disabled_total() == old(self).disabled_total(),
            ({
                let network = old(self).network();
                let before = old(self).network_runtime();
                let after = final(self).network_runtime();
                let found = network.positions.has(pos) && network.positions.at(pos).0 < network.node_total();
                let source = network.positions.at(pos).0 as int;
                &&& !found ==> after.output_levels() == before.output_levels()
                &&& found ==> after.output_levels() == before.output_levels().update(
                    source,
                    if output > 15 {
                        15u8
                    } else {
                        output
                    },
                )
                &&& forall|w: int|
                    0 <= w < network.wires.count() ==> #[trigger] after.direct_levels()[w] == if found
                        && lists_wire(anchored_wires(&network, network.nodes@[source].pos), w)
                        && after.output_levels() != before.output_levels() {
                        source_max(network.wires.sources_of(w), after.output_levels())
                    } else {
                        before.direct_levels()[w]
                    }
                &&& forall|i: int|
                    0 <= i < network.node_total() ==> #[trigger] after.fast_input_levels()[i] == if found
                        && lists_node(network.fast_targets_of(source), i)
                        && after.output_levels() != before.output_levels() {
                        node_input(&network, i, after.output_levels(), after.powers())
                    } else {
                        before.fast_input_levels()[i]
                    }
            }),
            final(self).network_runtime().fast_enabled() == old(self).network_runtime().fast_enabled(),
    {
        match self.graph.node_id(pos) {
            Some(source) => {
                let _ = self.runtime.update_source_deferred(&self.graph, source, output);
            },
            None => {},
        }
    }

    /// Hands the network the new output of a source block at `pos`: the node
    /// there takes it, as `update_source_deferred` does; with no node there,
    /// every wire an update at `pos` reaches is disabled instead.
    pub fn synchronize_source(&mut self, pos: BlockPos, output: u8)
        requires
            old(self).valid(),
        ensures
            final(self).valid(),
            final(self).network() == old(self).network(),
            final(self).disabled().len() == old(self).disabled().len(),
            old(self).network().positions.has(pos) ==> {
                &&& final(self).disabled() == old(self).disabled()
                &&& final(self).disabled_total() == old(self).disabled_total()
                &&& !(old(self).network().positions.at(pos).0 < old(self).network().node_total())
                    ==> final(self).network_runtime().output_levels() == old(self).network_runtime().output_levels()
                &&& old(self).network().positions.at(pos).0 < old(self).network().node_total()
                    ==> final(self).network_runtime().output_levels() == old(self).network_runtime().output_levels().update(
                    old(self).network().positions.at(pos).0 as int,
                    if output > 15 {
                        15u8
                    } else {
                        output
                    },
                )
            },
            !old(self).network().positions.has(pos) ==> {
                &&& final(self).network_runtime() == old(self).network_runtime()
                &&& forall|wire: NetworkWireId|
                    old(self).network().wires.starts_change(pos, wire) && wire.0 < old(self).disabled().len()
                        ==> #[trigger] final(self).disabled()[wire.0 as int]
                &&& forall|w: int|
                    0 <= w < final(self).disabled().len() && #[trigger] final(self).disabled()[w]
                        && !old(self).disabled()[w] ==> spread(&old(self).network().wires, final(self).disabled(), w)
                &&& forall|i: int|
                    0 <= i < old(self).disabled().len() && #[trigger] old(self).disabled()[i] ==> final(self).disabled()[i]
            },
            final(self).network_runtime().fast_enabled() == old(self).network_runtime().fast_enabled(),
    {
        match self.graph.node_id(pos) {
            Some(_) => {
                self.update_source_deferred(pos, output);
            },
            None => {
                let positions = [pos];
                let _ = self.disable_positions(&positions);
                proof {
                    assert(positions@[0] == pos);
                }
            },
        }
    }

    /// Resolves a wire power change against the network: the wire's position
    /// and observer range; the observer count keeps the low eight bits.
    /// Nothing when the change names no wire of the network.
    pub fn resolve_wire_transition(&self, transition: WirePowerTransition) -> (resolved: Option<CompiledWireTransition>)
        requires
            self.valid(),
        ensures
            ({
                let wires = self.network().wires;
                let w = transition.wire.0 as int;
                match resolved {
                    None => w >= wires.count(),
                    Some(r) => {
                        &&& w < wires.count()
                        &&& r == CompiledWireTransition {
                            wire: transition.wire.0,
                            pos: wires.positions@[w],
                            old_power: transition.old_power,
                            new_power: transition.new_power,
                            observer_start: wires.observer_offsets@[w],
                            observer_count: (wires.observer_offsets@[w + 1] - wires.observer_offsets@[w]) as u8,
                        }
                    },
                }
            }),
    {
        proof {
            lemma_network_ready_tables(&self.graph);
            reveal(network_ready);
        }
        let pos = match self.graph.wires.wire_pos(transition.wire) {
            Some(pos) => pos,
            None => {
                return None;
            },
        };
        let (start, end) = self.graph.wires.observer_range(transition.wire);
        proof {
            assert(csr_valid(self.graph.wires.observer_offsets@, self.graph.wires.count(), self.graph.wires.observers@.len() as int));
            assert(self.graph.wires.observer_offsets@[transition.wire.0 as int] <= self.graph.wires.observer_offsets@[transition.wire.0 + 1]);
        }
        let count = end - start;
        Some(
            CompiledWireTransition {
                wire: transition.wire.0,
                pos,
                old_power: transition.old_power,
                new_power: transition.new_power,
                observer_start: start as u32,
                observer_count: #[verifier::truncate] (count as u8),
            },
        )
    }

    /// Answers topology changes that the dense network survives: with no
    /// change reaching it, a local rebuild takes the nodes near the changed
    /// positions off the fast path and a full rebuild takes every node off
    /// it. True when a change reaches the network, which must then be built
    /// anew; nothing changes then.
    pub fn apply_topology_changes(&mut self, full: bool, topology_positions: &[BlockPos], network_topology_positions: &[BlockPos]) -> (rebuild: bool)
        requires
            old(self).valid(),
        ensures
            final(self).valid(),
            rebuild == (network_topology_positions@.len() > 0),
            final(self).network() == old(self).network(),
            final(self).disabled() == old(self).disabled(),
            final(self).disabled_total() == old(self).disabled_total(),
            final(self).network_runtime().output_levels() == old(self).network_runtime().output_levels(),
            final(self).network_runtime().powers() == old(self).network_runtime().powers(),
            final(self).network_runtime().direct_levels() == old(self).network_runtime().direct_levels(),
            final(self).network_runtime().fast_input_levels() == old(self).network_runtime().fast_input_levels(),
            final(self).network_runtime().fast_enabled().len() == old(self).network_runtime().fast_enabled().len(),
            forall|i: int|
                0 <= i < old(self).network_runtime().fast_enabled().len() ==> #[trigger] final(self).network_runtime().fast_enabled()[i]
                    == (old(self).network_runtime().fast_enabled()[i] && (rebuild || (!full && !silenced(
                    &old(self).network(),
                    topology_positions@,
                    i,
                )))),
    {
        if network_topology_positions.len() > 0 {
            return true;
        }
        proof {
            lemma_network_ready_tables(&self.graph);
        }
        if full {
            self.runtime.disable_all_fast_inputs();
        } else {
            self.runtime.invalidate_fast_inputs(&self.graph, topology_positions);
        }
        false
    }

    /// Propagates a change at the wire at `origin` in the precompiled order
    /// into `events`. Ok(false), with nothing changed, when no wire stands
    /// there or when wires are disabled and this one is; otherwise the
    /// propagation runs, refusing to cross a disabled wire, and Ok(true)
    /// reports that it did.
    pub fn propagate_ordered(&mut self, origin: BlockPos, events: &mut Vec<OrderedWireEvent>) -> (result: Result<bool, OrderedPropagationError>)
        requires
            old(self).valid(),
        ensures
            final(self).valid(),
            final(self).network() == old(self).network(),
            final(self).disabled() == old(self).disabled(),
            final(self).disabled_total() == old(self).disabled_total(),
            ({
                let wires = old(self).network().wires;
                let skipped = !wires.position_index.has(origin) || (old(self).disabled_total() != 0
                    && wires.position_index.at(origin).0 < old(self).disabled().len()
                    && old(self).disabled()[wires.position_index.at(origin).0 as int]);
                &&& (result == Ok::<bool, OrderedPropagationError>(false)) == skipped
                &&& skipped ==> final(self).network_runtime() == old(self).network_runtime() && final(events)@
                    == old(events)@
                &&& result == Ok::<bool, OrderedPropagationError>(true) ==> {
                    &&& events_valid(&old(self).network(), final(events)@)
                    &&& chained(old(self).network_runtime().powers(), final(events)@)
                    &&& final(self).network_runtime().powers() == replay(
                        old(self).network_runtime().powers(),
                        final(events)@,
                    )
                }
                &&& result is Err ==> final(self).network_runtime().powers() == old(self).network_runtime().powers()
                &&& match result {
                    Ok(_) => true,
                    Err(error) => propagation_error_allowed(
                        &old(self).network(),
                        wires.position_index.at(origin),
                        old(self).disabled_total() != 0,
                        old(self).disabled(),
                        Err(error),
                    ),
                }
                &&& result is Err ==> buckets_restored(
                    old(self).network_runtime().bucket_rows(),
                    old(self).network_runtime().bucket_masks(),
                    final(self).network_runtime().bucket_rows(),
                    final(self).network_runtime().bucket_masks(),
                )
                &&& !skipped ==> origin_outcome(
                    &old(self).network(),
                    wires.position_index.at(origin),
                    old(self).disabled_total() != 0,
                    old(self).disabled(),
                    old(self).network_runtime().powers(),
                    old(self).network_runtime().direct_levels(),
                    match result {
                        Ok(_) => Ok::<(), OrderedPropagationError>(()),
                        Err(error) => Err(error),
                    },
                    final(events)@,
                    final(self).network_runtime().powers(),
                )
                &&& !skipped && wires.position_index.at(origin).0 < wires.count() ==> match walk(
                    &old(self).network(),
                    old(self).network_runtime().walk_setting(
                        old(self).disabled_total() != 0,
                        if old(self).disabled_total() != 0 {
                            old(self).disabled()
                        } else {
                            Seq::<bool>::empty()
                        },
                    ),
                    old(self).network_runtime().walk_start(wires.position_index.at(origin)),
                    ORDERED_PROPAGATION_LIMIT as nat,
                ) {
                    Ok(w) => result == Ok::<bool, OrderedPropagationError>(true) && final(events)@ == w.events
                        && final(self).network_runtime().powers() == w.powers,
                    Err(error) => result == Err::<bool, OrderedPropagationError>(error),
                }
                &&& result == Ok::<bool, OrderedPropagationError>(true) && clean_settled(
                    wires,
                    old(self).network_runtime().powers(),
                    old(self).network_runtime().direct_levels(),
                    old(self).network_runtime().dirty_wires().update(wires.position_index.at(origin).0 as int, true),
                ) ==> clean_settled(
                    wires,
                    final(self).network_runtime().powers(),
                    final(self).network_runtime().direct_levels(),
                    final(self).network_runtime().dirty_wires(),
                )
            }),
            final(self).network_runtime().output_levels() == old(self).network_runtime().output_levels(),
            final(self).network_runtime().direct_levels() == old(self).network_runtime().direct_levels(),
    {
        let wire = match self.graph.wire_id(origin) {
            Some(wire) => wire,
            None => {
                return Ok(false);
            },
        };
        let propagation = if self.disabled_wire_count == 0 {
            self.runtime.propagate_ordered_into(&self.graph, wire, events)
        } else {
            if self.is_disabled(wire) {
                return Ok(false);
            }
            self.runtime.propagate_ordered_with_disabled_into(&self.graph, wire, self.disabled_wires.as_slice(), events)
        };
        match propagation {
            Ok(()) => Ok(true),
            Err(error) => Err(error),
        }
    }

    /// Disables the wires where a change at one of `positions` starts an
    /// update, and queues the ones it disables.
    fn disable_starts(&mut self, positions: &[BlockPos], queue: &mut VecDeque<NetworkWireId>, count: &mut usize, Ghost(before): Ghost<Seq<bool>>)
        requires
            old(self).disabled_wires@.len() == before.len(),
            before.len() == old(self).graph.wires.count(),
            old(self).graph.wires.tables_in_bounds(),
            forall|i: int| 0 <= i < before.len() && #[trigger] before[i] ==> old(self).disabled_wires@[i],
            *old(count) == newly_disabled(old(self).disabled_wires@, before, before.len() as int),
            forall|i: int| 0 <= i < old(queue)@.len() ==> #[trigger] old(queue)@[i].0 < before.len(),
            spreading(&old(self).graph.wires, old(self).disabled_wires@, before, old(queue)@),
        ensures
            final(self).graph == old(self).graph,
            final(self).runtime == old(self).runtime,
            final(self).disabled_wire_count == old(self).disabled_wire_count,
            final(self).disabled_wires@.len() == before.len(),
            forall|i: int| 0 <= i < before.len() && #[trigger] before[i] ==> final(self).disabled_wires@[i],
            *final(count) == newly_disabled(final(self).disabled_wires@, before, before.len() as int),
            forall|i: int| 0 <= i < final(queue)@.len() ==> #[trigger] final(queue)@[i].0 < before.len(),
            spreading(&final(self).graph.wires, final(self).disabled_wires@, before, final(queue)@),
            forall|q: int, wire: NetworkWireId|
                0 <= q < positions@.len() && final(self).graph.wires.starts_change(#[trigger] positions@[q], wire)
                    && wire.0 < before.len() ==> #[trigger] final(self).disabled_wires@[wire.0 as int],
    {
        let ghost n = before.len() as int;
        let mut p: usize = 0;
        while p < positions.len()
            invariant
                p <= positions@.len(),
                self.graph == old(self).graph,
                self.runtime == old(self).runtime,
                self.disabled_wire_count == old(self).disabled_wire_count,
                n == before.len(),
                n == self.graph.wires.count(),
                self.graph.wires.tables_in_bounds(),
                self.disabled_wires@.len() == n,
                forall|i: int| 0 <= i < n && #[trigger] before[i] ==> self.disabled_wires@[i],
                *count == newly_disabled(self.disabled_wires@, before, n),
                forall|i: int| 0 <= i < queue@.len() ==> #[trigger] queue@[i].0 < n,
                spreading(&self.graph.wires, self.disabled_wires@, before, queue@),
                forall|q: int, wire: NetworkWireId|
                    0 <= q < p && self.graph.wires.starts_change(#[trigger] positions@[q], wire) && wire.0 < n
                        ==> #[trigger] self.disabled_wires@[wire.0 as int],
            decreases positions@.len() - p,
        {
            let starts = self.graph.wires.starts_for_change(positions[p]);
            let mut k: usize = 0;
            while k < starts.len()
                invariant
                    k <= starts@.len(),
                    p < positions@.len(),
                    forall|wire: NetworkWireId| starts@.contains(wire) <==> self.graph.wires.starts_change(positions@[p as int], wire),
                    self.graph == old(self).graph,
                    self.runtime == old(self).runtime,
                    self.disabled_wire_count == old(self).disabled_wire_count,
                    n == before.len(),
                    n == self.graph.wires.count(),
                    self.graph.wires.tables_in_bounds(),
                    self.disabled_wires@.len() == n,
                    forall|i: int| 0 <= i < n && #[trigger] before[i] ==> self.disabled_wires@[i],
                    *count == newly_disabled(self.disabled_wires@, before, n),
                    forall|i: int| 0 <= i < queue@.len() ==> #[trigger] queue@[i].0 < n,
                    spreading(&self.graph.wires, self.disabled_wires@, before, queue@),
                    forall|q: int, wire: NetworkWireId|
                        0 <= q < p && self.graph.wires.starts_change(#[trigger] positions@[q], wire) && wire.0 < n
                            ==> #[trigger] self.disabled_wires@[wire.0 as int],
                    forall|j: int| 0 <= j < k && starts@[j].0 < n ==> #[trigger] self.disabled_wires@[starts@[j].0 as int],
                decreases starts@.len() - k,
            {
                let ghost prior = self.disabled_wires@;
                let ghost prior_queue = queue@;
                queue_disabled(&mut self.disabled_wires, starts[k], queue, count, Ghost(before));
                proof {
                    lemma_spreading_after_disable(&self.graph.wires, prior, before, prior_queue, starts@[k as int]);
                }
                k += 1;
            }
            proof {
                assert forall|q: int, wire: NetworkWireId|
                    0 <= q < p + 1 && self.graph.wires.starts_change(#[trigger] positions@[q], wire) && wire.0 < n
                        implies #[trigger] self.disabled_wires@[wire.0 as int] by {
                    if q == p {
                        assert(starts@.contains(wire));
                        let j = choose|j: int| 0 <= j < starts@.len() && #[trigger] starts@[j] == wire;
                    }
                }
            }
            p += 1;
        }
    }

    /// Spreads the disabled region from every queued wire until the queue is empty.
    fn drain(&mut self, queue: &mut VecDeque<NetworkWireId>, count: &mut usize, Ghost(before): Ghost<Seq<bool>>, Ghost(positions): Ghost<Seq<BlockPos>>)
        requires
            old(self).disabled_wires@.len() == before.len(),
            before.len() == old(self).graph.wires.count(),
            old(self).graph.wires.tables_in_bounds(),
            forall|i: int| 0 <= i < before.len() && #[trigger] before[i] ==> old(self).disabled_wires@[i],
            *old(count) == newly_disabled(old(self).disabled_wires@, before, before.len() as int),
            forall|i: int| 0 <= i < old(queue)@.len() ==> #[trigger] old(queue)@[i].0 < before.len(),
            spreading(&old(self).graph.wires, old(self).disabled_wires@, before, old(queue)@),
            forall|q: int, wire: NetworkWireId|
                0 <= q < positions.len() && old(self).graph.wires.starts_change(#[trigger] positions[q], wire)
                    && wire.0 < before.len() ==> #[trigger] old(self).disabled_wires@[wire.0 as int],
        ensures
            final(self).graph == old(self).graph,
            final(self).runtime == old(self).runtime,
            final(self).disabled_wire_count == old(self).disabled_wire_count,
            final(self).disabled_wires@.len() == before.len(),
            forall|i: int| 0 <= i < before.len() && #[trigger] before[i] ==> final(self).disabled_wires@[i],
            *final(count) == newly_disabled(final(self).disabled_wires@, before, before.len() as int),
            final(queue)@.len() == 0,
            spreading(&final(self).graph.wires, final(self).disabled_wires@, before, final(queue)@),
            forall|q: int, wire: NetworkWireId|
                0 <= q < positions.len() && final(self).graph.wires.starts_change(#[trigger] positions[q], wire)
                    && wire.0 < before.len() ==> #[trigger] final(self).disabled_wires@[wire.0 as int],
    {
        let ghost n = before.len() as int;
        loop
            invariant
                self.graph == old(self).graph,
                self.runtime == old(self).runtime,
                self.disabled_wire_count == old(self).disabled_wire_count,
                n == before.len(),
                n == self.graph.wires.count(),
                self.graph.wires.tables_in_bounds(),
                self.disabled_wires@.len() == n,
                forall|i: int| 0 <= i < n && #[trigger] before[i] ==> self.disabled_wires@[i],
                *count == newly_disabled(self.disabled_wires@, before, n),
                forall|i: int| 0 <= i < queue@.len() ==> #[trigger] queue@[i].0 < n,
                spreading(&self.graph.wires, self.disabled_wires@, before, queue@),
                forall|q: int, wire: NetworkWireId|
                    0 <= q < positions.len() && self.graph.wires.starts_change(#[trigger] positions[q], wire) && wire.0 < n
                        ==> #[trigger] self.disabled_wires@[wire.0 as int],
            ensures
                queue@.len() == 0,
            decreases 2 * enabled_count(self.disabled_wires@, n) + queue@.len(),
        {
            let ghost before_pop = queue@;
            let wire = match queue.pop_front() {
                Some(wire) => wire,
                None => {
                    break;
                },
            };
            proof {
                lemma_spreading_after_pop(&self.graph.wires, self.disabled_wires@, before, before_pop);
            }
            let ghost prior = self.disabled_wires@;
            self.spread_from(wire, queue, count, Ghost(before));
            proof {
                assert forall|q: int, w: NetworkWireId|
                    0 <= q < positions.len() && self.graph.wires.starts_change(#[trigger] positions[q], w) && w.0 < n
                        implies #[trigger] self.disabled_wires@[w.0 as int] by {
                    assert(prior[w.0 as int]);
                }
            }
        }
    }

    /// Disables the neighbours of wire `wire`, which was just taken off the
    /// queue: the wires of its ordered list, its dependents and its predecessors.
    fn spread_from(&mut self, wire: NetworkWireId, queue: &mut VecDeque<NetworkWireId>, count: &mut usize, Ghost(before): Ghost<Seq<bool>>)
        requires
            wire.0 < before.len(),
            old(self).graph.wires.tables_in_bounds(),
            old(self).disabled_wires@.len() == before.len(),
            forall|i: int| 0 <= i < before.len() && #[trigger] before[i] ==> old(self).disabled_wires@[i],
            *old(count) == newly_disabled(old(self).disabled_wires@, before, before.len() as int),
            forall|i: int| 0 <= i < old(queue)@.len() ==> #[trigger] old(queue)@[i].0 < before.len(),
            spreading_except(&old(self).graph.wires, old(self).disabled_wires@, before, old(queue)@, wire.0 as int),
        ensures
            final(self).disabled_wires@.len() == before.len(),
            forall|i: int| 0 <= i < before.len() && #[trigger] old(self).disabled_wires@[i] ==> final(self).disabled_wires@[i],
            *final(count) == newly_disabled(final(self).disabled_wires@, before, before.len() as int),
            forall|i: int| 0 <= i < final(queue)@.len() ==> #[trigger] final(queue)@[i].0 < before.len(),
            spreading(&final(self).graph.wires, final(self).disabled_wires@, before, final(queue)@),
            2 * enabled_count(final(self).disabled_wires@, before.len() as int) + final(queue)@.len()
                <= 2 * enabled_count(old(self).disabled_wires@, before.len() as int) + old(queue)@.len(),
            final(self).graph == old(self).graph,
            final(self).runtime == old(self).runtime,
            final(self).disabled_wire_count == old(self).disabled_wire_count,
    {
        let ghost graph = self.graph.wires;
        let ghost n = before.len() as int;
        let ghost start = 2 * enabled_count(self.disabled_wires@, n) + queue@.len();
        let ordered = self.graph.wires.ordered_targets(wire);
        let mut k: usize = 0;
        while k < ordered.len()
            invariant
                k <= ordered@.len(),
                ordered@ == graph.ordered_targets_of(wire.0 as int),
                graph == self.graph.wires,
                self.graph == old(self).graph,
                self.runtime == old(self).runtime,
                self.disabled_wire_count == old(self).disabled_wire_count,
                n == before.len(),
                self.disabled_wires@.len() == n,
                forall|i: int| 0 <= i < n && #[trigger] old(self).disabled_wires@[i] ==> self.disabled_wires@[i],
                forall|i: int| 0 <= i < n && #[trigger] before[i] ==> self.disabled_wires@[i],
                *count == newly_disabled(self.disabled_wires@, before, n),
                forall|i: int| 0 <= i < queue@.len() ==> #[trigger] queue@[i].0 < n,
                spreading_except(&graph, self.disabled_wires@, before, queue@, wire.0 as int),
                forall|j: int|
                    0 <= j < k ==> {
                        let t = #[trigger] ordered@[j];
                        !flagged(t.0) && t.0 < n ==> self.disabled_wires@[t.0 as int]
                    },
                2 * enabled_count(self.disabled_wires@, n) + queue@.len() <= start,
            decreases ordered@.len() - k,
        {
            let target = ordered[k];
            match target.wire_id() {
                Some(next) => {
                    let ghost prior = self.disabled_wires@;
                    let ghost prior_queue = queue@;
                    queue_disabled(&mut self.disabled_wires, next, queue, count, Ghost(before));
                    proof {
                        lemma_except_after_disable(&graph, prior, before, prior_queue, next, wire.0 as int);
                    }
                },
                None => {},
            }
            k += 1;
        }
        let dependents = self.graph.wires.dependents(wire);
        let mut k: usize = 0;
        while k < dependents.len()
            invariant
                k <= dependents@.len(),
                dependents@ == graph.dependents_of(wire.0 as int),
                ordered@ == graph.ordered_targets_of(wire.0 as int),
                graph == self.graph.wires,
                self.graph == old(self).graph,
                self.runtime == old(self).runtime,
                self.disabled_wire_count == old(self).disabled_wire_count,
                n == before.len(),
                self.disabled_wires@.len() == n,
                forall|i: int| 0 <= i < n && #[trigger] old(self).disabled_wires@[i] ==> self.disabled_wires@[i],
                forall|i: int| 0 <= i < n && #[trigger] before[i] ==> self.disabled_wires@[i],
                *count == newly_disabled(self.disabled_wires@, before, n),
                forall|i: int| 0 <= i < queue@.len() ==> #[trigger] queue@[i].0 < n,
                spreading_except(&graph, self.disabled_wires@, before, queue@, wire.0 as int),
                forall|j: int|
                    0 <= j < ordered@.len() ==> {
                        let t = #[trigger] ordered@[j];
                        !flagged(t.0) && t.0 < n ==> self.disabled_wires@[t.0 as int]
                    },
                forall|j: int|
                    0 <= j < k ==> {
                        let t = #[trigger] dependents@[j];
                        t.0 < n ==> self.disabled_wires@[t.0 as int]
                    },
                2 * enabled_count(self.disabled_wires@, n) + queue@.len() <= start,
            decreases dependents@.len() - k,
        {
            let ghost prior = self.disabled_wires@;
            let ghost prior_queue = queue@;
            queue_disabled(&mut self.disabled_wires, dependents[k], queue, count, Ghost(before));
            proof {
                lemma_except_after_disable(&graph, prior, before, prior_queue, dependents@[k as int], wire.0 as int);
            }
            k += 1;
        }
        let predecessors = self.graph.wires.predecessors(wire);
        let mut k: usize = 0;
        while k < predecessors.len()
            invariant
                k <= predecessors@.len(),
                predecessors@ == graph.predecessors_of(wire.0 as int),
                dependents@ == graph.dependents_of(wire.0 as int),
                ordered@ == graph.ordered_targets_of(wire.0 as int),
                graph == self.graph.wires,
                self.graph == old(self).graph,
                self.runtime == old(self).runtime,
                self.disabled_wire_count == old(self).disabled_wire_count,
                n == before.len(),
                self.disabled_wires@.len() == n,
                forall|i: int| 0 <= i < n && #[trigger] old(self).disabled_wires@[i] ==> self.disabled_wires@[i],
                forall|i: int| 0 <= i < n && #[trigger] before[i] ==> self.disabled_wires@[i],
                *count == newly_disabled(self.disabled_wires@, before, n),
                forall|i: int| 0 <= i < queue@.len() ==> #[trigger] queue@[i].0 < n,
                spreading_except(&graph, self.disabled_wires@, before, queue@, wire.0 as int),
                forall|j: int|
                    0 <= j < ordered@.len() ==> {
                        let t = #[trigger] ordered@[j];
                        !flagged(t.0) && t.0 < n ==> self.disabled_wires@[t.0 as int]
                    },
                forall|j: int|
                    0 <= j < dependents@.len() ==> {
                        let t = #[trigger] dependents@[j];
                        t.0 < n ==> self.disabled_wires@[t.0 as int]
                    },
                forall|j: int|
                    0 <= j < k ==> {
                        let t = #[trigger] predecessors@[j];
                        t.0 < n ==> self.disabled_wires@[t.0 as int]
                    },
                2 * enabled_count(self.disabled_wires@, n) + queue@.len() <= start,
            decreases predecessors@.len() - k,
        {
            let ghost prior = self.disabled_wires@;
            let ghost prior_queue = queue@;
            queue_disabled(&mut self.disabled_wires, predecessors[k], queue, count, Ghost(before));
            proof {
                lemma_except_after_disable(&graph, prior, before, prior_queue, predecessors@[k as int], wire.0 as int);
            }
            k += 1;
        }
        proof {
            assert(spread(&graph, self.disabled_wires@, wire.0 as int));
            lemma_spreading_done(&graph, self.disabled_wires@, before, queue@, wire.0 as int);
        }
    }
}

/// Whether every newly disabled wire but `s` has spread or still waits.
#[verifier::opaque]
pub open spec fn spreading_except(graph: &DenseWireGraph, now: Seq<bool>, before: Seq<bool>, queue: Seq<NetworkWireId>, s: int) -> bool {
    forall|w: int|
        0 <= w < now.len() && now[w] && !before[w] && w != s ==> waiting(queue, w) || #[trigger] spread(graph, now, w)
}

proof fn lemma_none_new(before: Seq<bool>, upto: int)
    requires
        upto <= before.len(),
    ensures
        newly_disabled(before, before, upto) == 0,
    decreases upto,
{
    if upto > 0 {
        lemma_none_new(before, upto - 1);
    }
}

proof fn lemma_spread_grows(graph: &DenseWireGraph, now: Seq<bool>, later: Seq<bool>, w: int)
    requires
        now.len() == later.len(),
        forall|i: int| 0 <= i < now.len() && #[trigger] now[i] ==> later[i],
        spread(graph, now, w),
    ensures
        spread(graph, later, w),
{
    assert forall|k: int| 0 <= k < graph.ordered_targets_of(w).len() implies {
        let t = #[trigger] graph.ordered_targets_of(w)[k];
        !flagged(t.0) && t.0 < later.len() ==> later[t.0 as int]
    } by {
        let t = graph.ordered_targets_of(w)[k];
        if !flagged(t.0) && t.0 < later.len() {
            assert(now[t.0 as int]);
        }
    }
    assert forall|k: int| 0 <= k < graph.dependents_of(w).len() implies {
        let t = #[trigger] graph.dependents_of(w)[k];
        t.0 < later.len() ==> later[t.0 as int]
    } by {
        let t = graph.dependents_of(w)[k];
        if t.0 < later.len() {
            assert(now[t.0 as int]);
        }
    }
    assert forall|k: int| 0 <= k < graph.predecessors_of(w).len() implies {
        let t = #[trigger] graph.predecessors_of(w)[k];
        t.0 < later.len() ==> later[t.0 as int]
    } by {
        let t = graph.predecessors_of(w)[k];
        if t.0 < later.len() {
            assert(now[t.0 as int]);
        }
    }
}

proof fn lemma_spreading_after_disable(graph: &DenseWireGraph, prior: Seq<bool>, before: Seq<bool>, queue: Seq<NetworkWireId>, wire: NetworkWireId)
    requires
        prior.len() == before.len(),
        spreading(graph, prior, before, queue),
    ensures
        ({
            let now = if wire.0 < before.len() {
                prior.update(wire.0 as int, true)
            } else {
                prior
            };
            let queue2 = if wire.0 < before.len() && !prior[wire.0 as int] {
                queue.push(wire)
            } else {
                queue
            };
            spreading(graph, now, before, queue2)
        }),
{
    reveal(spreading);
    let now = if wire.0 < before.len() {
        prior.update(wire.0 as int, true)
    } else {
        prior
    };
    let queue2 = if wire.0 < before.len() && !prior[wire.0 as int] {
        queue.push(wire)
    } else {
        queue
    };
    assert forall|w: int| 0 <= w < now.len() && now[w] && !before[w] implies waiting(queue2, w) || #[trigger] spread(graph, now, w) by {
        if w == wire.0 && wire.0 < before.len() && !prior[wire.0 as int] {
            assert(queue2[queue.len() as int].0 == w);
        } else {
            assert(prior[w]);
            if waiting(queue, w) {
                let i = choose|i: int| 0 <= i < queue.len() && #[trigger] queue[i].0 == w;
                assert(queue2[i] == queue[i]);
            } else {
                lemma_spread_grows(graph, prior, now, w);
            }
        }
    }
}

proof fn lemma_except_after_disable(graph: &DenseWireGraph, prior: Seq<bool>, before: Seq<bool>, queue: Seq<NetworkWireId>, wire: NetworkWireId, s: int)
    requires
        prior.len() == before.len(),
        spreading_except(graph, prior, before, queue, s),
    ensures
        ({
            let now = if wire.0 < before.len() {
                prior.update(wire.0 as int, true)
            } else {
                prior
            };
            let queue2 = if wire.0 < before.len() && !prior[wire.0 as int] {
                queue.push(wire)
            } else {
                queue
            };
            spreading_except(graph, now, before, queue2, s)
        }),
{
    reveal(spreading_except);
    let now = if wire.0 < before.len() {
        prior.update(wire.0 as int, true)
    } else {
        prior
    };
    let queue2 = if wire.0 < before.len() && !prior[wire.0 as int] {
        queue.push(wire)
    } else {
        queue
    };
    assert forall|w: int| 0 <= w < now.len() && now[w] && !before[w] && w != s implies waiting(queue2, w) || #[trigger] spread(graph, now, w) by {
        if w == wire.0 && wire.0 < before.len() && !prior[wire.0 as int] {
            assert(queue2[queue.len() as int].0 == w);
        } else {
            assert(prior[w]);
            if waiting(queue, w) {
                let i = choose|i: int| 0 <= i < queue.len() && #[trigger] queue[i].0 == w;
                assert(queue2[i] == queue[i]);
            } else {
                lemma_spread_grows(graph, prior, now, w);
            }
        }
    }
}

proof fn lemma_spreading_after_pop(graph: &DenseWireGraph, now: Seq<bool>, before: Seq<bool>, queue: Seq<NetworkWireId>)
    requires
        queue.len() > 0,
        spreading(graph, now, before, queue),
    ensures
        spreading_except(graph, now, before, queue.subrange(1, queue.len() as int), queue[0].0 as int),
{
    reveal(spreading);
    reveal(spreading_except);
    let rest = queue.subrange(1, queue.len() as int);
    assert forall|w: int| 0 <= w < now.len() && now[w] && !before[w] && w != queue[0].0 implies waiting(rest, w) || #[trigger] spread(graph, now, w) by {
        if waiting(queue, w) {
            let i = choose|i: int| 0 <= i < queue.len() && #[trigger] queue[i].0 == w;
            assert(rest[i - 1] == queue[i]);
        }
    }
}

proof fn lemma_spreading_done(graph: &DenseWireGraph, now: Seq<bool>, before: Seq<bool>, queue: Seq<NetworkWireId>, s: int)
    requires
        spreading_except(graph, now, before, queue, s),
        spread(graph, now, s),
    ensures
        spreading(graph, now, before, queue),
{
    reveal(spreading);
    reveal(spreading_except);
}

} // verus!
