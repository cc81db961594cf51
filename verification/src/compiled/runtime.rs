//! The network runtime: node outputs, wire powers and the power buckets
//! that let a wire find its strongest predecessor in constant time, with
//! ordered propagation of wire changes and its rollback.

use std::collections::VecDeque;

use vstd::prelude::*;

use crate::compiled::buckets::{
    lemma_level_count_positive, lemma_occurrences_positive,
    buckets_fit, contribution, highest_level, highest_set_level, in_degree, level_count,
    lemma_level_count_bounds, lemma_level_count_le_degree, lemma_level_count_update,
    lemma_occurrences_prefix, lemma_occurrences_prefix_le, mask_matches, occurrences, update_bucket, bit_set,
};
use crate::compiled::csr::{csr_ranges_in_bounds, csr_valid, lemma_csr_valid_in_bounds};
use crate::compiled::dense::DenseWireGraph;
use crate::compiled::network::{
    flagged, unflagged, NetworkInputKind, NetworkInputPort, NetworkInputPower, NetworkNode,
    NetworkNodeId, NetworkNodeKind, NetworkWireId, NetworkWireSource, NetworkWireTarget,
    OrderedBoundaryTarget, OrderedWireTarget,
};
use crate::compiled::static_network::StaticNetwork;
use crate::position::BlockPos;
use crate::posmap::PositionMap;

verus! {

/// The most steps that one ordered propagation may take before it gives up.
pub const ORDERED_PROPAGATION_LIMIT: usize = 4_000_000;

/// A change of one wire's power.
#[derive(Clone, Copy, Debug, PartialEq, Eq, Structural)]
pub struct WirePowerTransition {
    pub wire: NetworkWireId,
    pub old_power: u8,
    pub new_power: u8,
}

/// What an ordered propagation reports, in order: wire power changes, and
/// boundary blocks to update, with the fast input of the node there when it
/// is known.
#[derive(Clone, Copy, Debug, PartialEq, Eq, Structural)]
pub enum OrderedWireEvent {
    Wire(WirePowerTransition),
    Boundary { target: u32, input: Option<NetworkInputPower> },
}

/// Why an ordered propagation stopped.
#[derive(Clone, Copy, Debug, PartialEq, Eq, Structural)]
pub enum OrderedPropagationError {
    InvalidWire(NetworkWireId),
    InvalidOrderedTarget(u32),
    InvalidBoundary(usize),
    DisabledWireCrossing(NetworkWireId),
    IterationLimitExceeded { limit: usize },
}

/// A pending range of the ordered table.
#[derive(Clone, Copy, Debug, PartialEq, Eq, Structural)]
pub struct OrderedTargetFrame {
    pub next: u32,
    pub end: u32,
}

/// The runtime state of a static network.
pub struct NetworkRuntime {
    outputs: Vec<u8>,
    wire_powers: Vec<u8>,
    direct_wire_powers: Vec<u8>,
    wire_predecessor_counts: Vec<[u8; 16]>,
    wire_predecessor_masks: Vec<u16>,
    fast_inputs: Vec<NetworkInputPower>,
    fast_input_enabled: Vec<bool>,
    fast_input_emitted_epochs: Vec<u32>,
    fast_input_dirty_epochs: Vec<u32>,
    fast_input_epoch: u32,
    wire_inputs_dirty: Vec<bool>,
    queue: VecDeque<NetworkWireId>,
    ordered_stack: Vec<OrderedTargetFrame>,
}

/// Whether a network can drive a runtime: it is consistent, its direct fast
/// targets name existing nodes, every bucket count fits a byte and every
/// wire's initial power is a signal level.
#[verifier::opaque]
pub open spec fn network_ready(network: &StaticNetwork) -> bool {
    &&& network.edge_ranges_in_bounds()
    &&& network.well_formed()
    &&& network.fast_targets_in_range()
    &&& buckets_fit(network.wires)
    &&& network.wires.count() <= u32::MAX
    &&& network.node_total() <= u32::MAX
    &&& forall|w: int| 0 <= w < network.wires.count() ==> #[trigger] network.wires.initial_power@[w] <= 15
}

/// The strongest output among the sources of a wire, or zero.
pub open spec fn source_max(sources: Seq<NetworkWireSource>, outputs: Seq<u8>) -> u8
    decreases sources.len(),
{
    if sources.len() == 0 {
        0
    } else {
        let rest = source_max(sources.drop_last(), outputs);
        let last = sources.last().source.0;
        if last < outputs.len() && outputs[last as int] > rest {
            outputs[last as int]
        } else {
            rest
        }
    }
}

/// The output a node starts with: a comparator's recorded output if there is
/// one, else the node's constant output, else its initial output, capped at 15.
pub open spec fn starting_output(node: NetworkNode, comparator_outputs: PositionMap<u8>) -> u8 {
    let raw = if node.kind == NetworkNodeKind::Comparator && comparator_outputs.has(node.pos) {
        comparator_outputs.at(node.pos)
    } else {
        match node.constant_output {
            Some(output) => output,
            None => node.initial_output,
        }
    };
    if raw > 15 {
        15
    } else {
        raw
    }
}

/// Whether the buckets hold the levels contributed by the first `upto` wires.
pub open spec fn buckets_match(
    graph: DenseWireGraph,
    powers: Seq<u8>,
    counts: Seq<[u8; 16]>,
    masks: Seq<u16>,
    upto: int,
) -> bool {
    let n = graph.count();
    &&& counts.len() == n
    &&& masks.len() == n
    &&& forall|w: int, p: int|
        0 <= w < n && 1 <= p < 16 ==> (#[trigger] counts[w]@[p]) as nat == level_count(
            graph,
            powers,
            w,
            p,
            upto,
        )
    &&& forall|w: int| 0 <= w < n ==> #[trigger] mask_matches(counts[w]@, masks[w])
}

/// The highest level that the wires powering `w` contribute, looking from `from` down.
pub open spec fn top_level(graph: DenseWireGraph, powers: Seq<u8>, w: int, from: int) -> int
    decreases from,
{
    if from <= 0 {
        0
    } else if level_count(graph, powers, w, from, graph.count()) > 0 {
        from
    } else {
        top_level(graph, powers, w, from - 1)
    }
}

/// The power a wire should have: the stronger of its direct power and the
/// highest level its predecessors contribute.
pub open spec fn target_power(graph: DenseWireGraph, powers: Seq<u8>, direct: Seq<u8>, w: int) -> int {
    let top = top_level(graph, powers, w, 15);
    if top > direct[w] {
        top
    } else {
        direct[w] as int
    }
}

/// Whether every wire that is not marked for recomputation stands at its
/// target power.
#[verifier::opaque]
pub open spec fn clean_settled(graph: DenseWireGraph, powers: Seq<u8>, direct: Seq<u8>, dirty: Seq<bool>) -> bool {
    forall|w: int|
        0 <= w < graph.count() && !dirty[w] ==> powers[w] == #[trigger] target_power(graph, powers, direct, w)
}

/// Settled powers after a change of the direct level of one wire alone:
/// once that wire is marked, every unmarked wire stands at its target power,
/// which a successful ordered propagation from that wire keeps.
pub proof fn law_settled_before_propagation(
    graph: DenseWireGraph,
    powers: Seq<u8>,
    before: Seq<u8>,
    after: Seq<u8>,
    dirty: Seq<bool>,
    origin: int,
)
    requires
        settled(graph, powers, before),
        before.len() == graph.count(),
        after.len() == graph.count(),
        dirty.len() == graph.count(),
        0 <= origin < graph.count(),
        forall|w: int| 0 <= w < graph.count() && w != origin ==> #[trigger] after[w] == before[w],
    ensures
        clean_settled(graph, powers, after, dirty.update(origin, true)),
{
    reveal(clean_settled);
    let marked = dirty.update(origin, true);
    assert forall|w: int| 0 <= w < graph.count() && !marked[w] implies powers[w] == #[trigger] target_power(
        graph,
        powers,
        after,
        w,
    ) by {
        if w == origin {
            assert(marked[w]);
        }
        assert(after[w] == before[w]);
        assert(powers[w] == target_power(graph, powers, before, w));
    }
}

/// A bucket row that counts the levels of a wire's predecessors finds the
/// same highest level as the predecessors themselves.
proof fn lemma_highest_is_top(graph: DenseWireGraph, powers: Seq<u8>, row: Seq<u8>, w: int, from: int)
    requires
        0 <= from < 16,
        forall|p: int| 1 <= p < 16 ==> (#[trigger] row[p]) as nat == level_count(graph, powers, w, p, graph.count()),
    ensures
        highest_level(row, from) == top_level(graph, powers, w, from),
    decreases from,
{
    if from > 0 {
        assert(row[from] as nat == level_count(graph, powers, w, from, graph.count()));
        lemma_highest_is_top(graph, powers, row, w, from - 1);
    }
}

/// Equal level counts give equal highest levels.
proof fn lemma_top_level_same(graph: DenseWireGraph, a: Seq<u8>, b: Seq<u8>, w: int, from: int)
    requires
        forall|p: int|
            1 <= p <= from ==> #[trigger] level_count(graph, a, w, p, graph.count()) == level_count(
                graph,
                b,
                w,
                p,
                graph.count(),
            ),
    ensures
        top_level(graph, a, w, from) == top_level(graph, b, w, from),
    decreases from,
{
    if from > 0 {
        assert(level_count(graph, a, w, from, graph.count()) == level_count(graph, b, w, from, graph.count()));
        lemma_top_level_same(graph, a, b, w, from - 1);
    }
}

/// Changing the power of wire `v` leaves the target power of every wire
/// that `v` does not feed as it was.
proof fn lemma_target_unfed(graph: DenseWireGraph, powers: Seq<u8>, direct: Seq<u8>, v: int, x: u8, w: int)
    requires
        0 <= v < powers.len(),
        powers.len() == graph.count(),
        occurrences(graph.dependents_of(v), w) == 0,
    ensures
        target_power(graph, powers.update(v, x), direct, w) == target_power(graph, powers, direct, w),
{
    assert forall|p: int| 1 <= p <= 15 implies #[trigger] level_count(graph, powers.update(v, x), w, p, graph.count())
        == level_count(graph, powers, w, p, graph.count()) by {
        lemma_level_count_update(graph, powers, v, x, w, p, graph.count());
    }
    lemma_top_level_same(graph, powers.update(v, x), powers, w, 15);
}

/// What a ready network provides.
pub proof fn lemma_network_ready(network: &StaticNetwork)
    requires
        network_ready(network),
    ensures
        network.well_formed(),
        network.fast_targets_in_range(),
        buckets_fit(network.wires),
        network.wires.count() <= u32::MAX,
        network.node_total() <= u32::MAX,
        forall|w: int| 0 <= w < network.wires.count() ==> #[trigger] network.wires.initial_power@[w] <= 15,
        network.wires.tables_in_bounds(),
        csr_ranges_in_bounds(network.input_offsets@, network.input_ports@.len() as int),
        csr_ranges_in_bounds(
            network.direct_fast_target_offsets@,
            network.direct_fast_targets@.len() as int,
        ),
{
    reveal(network_ready);
    lemma_network_ready_bounds(network);
}

/// The table bounds that a ready network provides.
pub proof fn lemma_network_ready_tables(network: &StaticNetwork)
    requires
        network_ready(network),
    ensures
        network.fast_targets_in_range(),
        network.wires.count() <= u32::MAX,
        network.node_total() <= u32::MAX,
        network.wires.tables_in_bounds(),
        csr_ranges_in_bounds(network.input_offsets@, network.input_ports@.len() as int),
        csr_ranges_in_bounds(
            network.direct_fast_target_offsets@,
            network.direct_fast_targets@.len() as int,
        ),
{
    lemma_network_ready(network);
}

pub proof fn lemma_network_ready_bounds(network: &StaticNetwork)
    requires
        network.well_formed(),
    ensures
        network.wires.tables_in_bounds(),
        csr_ranges_in_bounds(network.input_offsets@, network.input_ports@.len() as int),
        csr_ranges_in_bounds(
            network.direct_fast_target_offsets@,
            network.direct_fast_targets@.len() as int,
        ),
{
    network.wires.lemma_well_formed_in_bounds();
    lemma_csr_valid_in_bounds(
        network.input_offsets@,
        network.node_total(),
        network.input_ports@.len() as int,
    );
    lemma_csr_valid_in_bounds(
        network.direct_fast_target_offsets@,
        network.node_total(),
        network.direct_fast_targets@.len() as int,
    );
}

pub proof fn lemma_in_degree_mono(graph: DenseWireGraph, w: int, a: int, b: int)
    requires
        a <= b,
    ensures
        in_degree(graph, w, a) <= in_degree(graph, w, b),
    decreases b - a,
{
    if a < b {
        lemma_in_degree_mono(graph, w, a, b - 1);
    }
}

/// The dependents of a wire name only wires of the graph.
pub proof fn lemma_dependents_in_range(graph: DenseWireGraph, v: int, k: int)
    requires
        graph.well_formed(),
        0 <= v < graph.count(),
        0 <= k < graph.dependents_of(v).len(),
    ensures
        graph.dependents_of(v)[k].0 < graph.count(),
{
    assert(graph.wire_entry_valid(v));
}

impl NetworkRuntime {
    /// The node outputs.
    pub closed spec fn output_levels(&self) -> Seq<u8> {
        self.outputs@
    }

    /// The wire powers.
    pub closed spec fn powers(&self) -> Seq<u8> {
        self.wire_powers@
    }

    /// The power that each wire receives from its source nodes.
    pub closed spec fn direct_levels(&self) -> Seq<u8> {
        self.direct_wire_powers@
    }

    /// The bucket counts of each wire.
    pub closed spec fn bucket_rows(&self) -> Seq<[u8; 16]> {
        self.wire_predecessor_counts@
    }

    /// The bucket masks of each wire.
    pub closed spec fn bucket_masks(&self) -> Seq<u16> {
        self.wire_predecessor_masks@
    }

    /// The fast inputs of the nodes.
    pub closed spec fn fast_input_levels(&self) -> Seq<NetworkInputPower> {
        self.fast_inputs@
    }

    /// Which nodes still read their inputs on the fast path.
    pub closed spec fn fast_enabled(&self) -> Seq<bool> {
        self.fast_input_enabled@
    }

    /// Which wires must recompute their power when next reached.
    pub closed spec fn dirty_wires(&self) -> Seq<bool> {
        self.wire_inputs_dirty@
    }

    /// The runtime invariant over a network: every table has one entry per
    /// node or wire, every output, power and direct power is a signal level,
    /// and the buckets count the predecessors' levels at the current powers.
    pub closed spec fn inv(&self, network: &StaticNetwork) -> bool {
        let n = network.wires.count();
        let m = network.node_total();
        &&& self.outputs@.len() == m
        &&& self.wire_powers@.len() == n
        &&& self.direct_wire_powers@.len() == n
        &&& self.fast_inputs@.len() == m
        &&& self.fast_input_enabled@.len() == m
        &&& self.fast_input_emitted_epochs@.len() == m
        &&& self.fast_input_dirty_epochs@.len() == m
        &&& self.wire_inputs_dirty@.len() == n
        &&& forall|i: int| 0 <= i < m ==> #[trigger] self.outputs@[i] <= 15
        &&& forall|i: int| 0 <= i < n ==> #[trigger] self.wire_powers@[i] <= 15
        &&& forall|i: int| 0 <= i < n ==> #[trigger] self.direct_wire_powers@[i] <= 15
        &&& buckets_match(
            network.wires,
            self.wire_powers@,
            self.wire_predecessor_counts@,
            self.wire_predecessor_masks@,
            n,
        )
    }

    /// The output of node `node`, if it exists.
    pub fn output(&self, node: NetworkNodeId) -> (output: Option<u8>)
        ensures
            output == (if node.0 < self.output_levels().len() {
                Some(self.output_levels()[node.0 as int])
            } else {
                None
            }),
    {
        if node.index() < self.outputs.len() {
            Some(self.outputs[node.index()])
        } else {
            None
        }
    }

    /// The power of wire `wire`, if it exists.
    pub fn wire_power(&self, wire: NetworkWireId) -> (power: Option<u8>)
        ensures
            power == (if wire.0 < self.powers().len() {
                Some(self.powers()[wire.0 as int])
            } else {
                None
            }),
    {
        if wire.index() < self.wire_powers.len() {
            Some(self.wire_powers[wire.index()])
        } else {
            None
        }
    }

    /// How many predecessors of wire `wire` contribute `level`, if the wire exists.
    pub fn predecessor_count(&self, wire: NetworkWireId, level: u8) -> (count: Option<u8>)
        requires
            level < 16,
        ensures
            count == (if wire.0 < self.bucket_rows().len() {
                Some(self.bucket_rows()[wire.0 as int]@[level as int])
            } else {
                None
            }),
    {
        if wire.index() < self.wire_predecessor_counts.len() {
            let row = self.wire_predecessor_counts[wire.index()];
            Some(row[level as usize])
        } else {
            None
        }
    }

    /// The bucket mask of wire `wire`, if the wire exists.
    pub fn predecessor_mask(&self, wire: NetworkWireId) -> (mask: Option<u16>)
        ensures
            mask == (if wire.0 < self.bucket_masks().len() {
                Some(self.bucket_masks()[wire.0 as int])
            } else {
                None
            }),
    {
        if wire.index() < self.wire_predecessor_masks.len() {
            Some(self.wire_predecessor_masks[wire.index()])
        } else {
            None
        }
    }

    /// The strongest output among the sources of wire `wire`, or zero.
    fn scan_direct_wire_power(&self, network: &StaticNetwork, wire: NetworkWireId) -> (power: u8)
        requires
            network.wires.tables_in_bounds(),
            forall|i: int| 0 <= i < self.outputs@.len() ==> #[trigger] self.outputs@[i] <= 15,
        ensures
            power == source_max(network.wires.sources_of(wire.0 as int), self.outputs@),
            power <= 15,
    {
        let sources = network.wires.sources(wire);
        let mut best: u8 = 0;
        let mut k: usize = 0;
        while k < sources.len()
            invariant
                k <= sources@.len(),
                sources@ == network.wires.sources_of(wire.0 as int),
                forall|i: int| 0 <= i < self.outputs@.len() ==> #[trigger] self.outputs@[i] <= 15,
                best == source_max(sources@.subrange(0, k as int), self.outputs@),
                best <= 15,
            decreases sources@.len() - k,
        {
            assert(sources@.subrange(0, k + 1).drop_last() =~= sources@.subrange(0, k as int));
            let source = sources[k].source.index();
            if source < self.outputs.len() && self.outputs[source] > best {
                best = self.outputs[source];
            }
            k += 1;
        }
        assert(sources@.subrange(0, sources@.len() as int) =~= sources@);
        best
    }

    /// Adds one predecessor at `level` to the buckets of wire `wire`.
    fn increment_predecessor_bucket(&mut self, wire: NetworkWireId, level: u8)
        requires
            wire.0 < old(self).wire_predecessor_counts@.len(),
            old(self).wire_predecessor_counts@.len() == old(self).wire_predecessor_masks@.len(),
            1 <= level < 16,
            mask_matches(
                old(self).wire_predecessor_counts@[wire.0 as int]@,
                old(self).wire_predecessor_masks@[wire.0 as int],
            ),
            old(self).wire_predecessor_counts@[wire.0 as int]@[level as int] < 255,
        ensures
            final(self).wire_predecessor_counts@ == old(self).wire_predecessor_counts@.update(
                wire.0 as int,
                final(self).wire_predecessor_counts@[wire.0 as int],
            ),
            final(self).wire_predecessor_counts@[wire.0 as int]@ == old(
                self,
            ).wire_predecessor_counts@[wire.0 as int]@.update(
                level as int,
                (old(self).wire_predecessor_counts@[wire.0 as int]@[level as int] + 1) as u8,
            ),
            final(self).wire_predecessor_masks@ == old(self).wire_predecessor_masks@.update(
                wire.0 as int,
                final(self).wire_predecessor_masks@[wire.0 as int],
            ),
            mask_matches(
                final(self).wire_predecessor_counts@[wire.0 as int]@,
                final(self).wire_predecessor_masks@[wire.0 as int],
            ),
            final(self).outputs == old(self).outputs,
            final(self).wire_powers == old(self).wire_powers,
            final(self).direct_wire_powers == old(self).direct_wire_powers,
            final(self).fast_inputs == old(self).fast_inputs,
            final(self).fast_input_enabled == old(self).fast_input_enabled,
            final(self).fast_input_emitted_epochs == old(self).fast_input_emitted_epochs,
            final(self).fast_input_dirty_epochs == old(self).fast_input_dirty_epochs,
            final(self).fast_input_epoch == old(self).fast_input_epoch,
            final(self).wire_inputs_dirty == old(self).wire_inputs_dirty,
    {
        self.update_predecessor_bucket(wire, 0, level);
    }

    /// Moves one predecessor of wire `wire` from level `from_level` to level
    /// `to_level`; level zero is not counted.
    fn update_predecessor_bucket(&mut self, wire: NetworkWireId, from_level: u8, to_level: u8)
        requires
            wire.0 < old(self).wire_predecessor_counts@.len(),
            old(self).wire_predecessor_counts@.len() == old(self).wire_predecessor_masks@.len(),
            from_level < 16,
            to_level < 16,
            mask_matches(
                old(self).wire_predecessor_counts@[wire.0 as int]@,
                old(self).wire_predecessor_masks@[wire.0 as int],
            ),
            from_level > 0 ==> old(self).wire_predecessor_counts@[wire.0 as int]@[from_level as int]
                > 0,
            to_level > 0 ==> old(self).wire_predecessor_counts@[wire.0 as int]@[to_level as int] - (
            if from_level == to_level {
                1int
            } else {
                0int
            }) < 255,
        ensures
            final(self).wire_predecessor_counts@ == old(self).wire_predecessor_counts@.update(
                wire.0 as int,
                final(self).wire_predecessor_counts@[wire.0 as int],
            ),
            final(self).wire_predecessor_counts@[wire.0 as int]@ == (if to_level > 0 {
                let row = old(self).wire_predecessor_counts@[wire.0 as int]@;
                let dropped = if from_level > 0 {
                    row.update(from_level as int, (row[from_level as int] - 1) as u8)
                } else {
                    row
                };
                dropped.update(to_level as int, (dropped[to_level as int] + 1) as u8)
            } else if from_level > 0 {
                let row = old(self).wire_predecessor_counts@[wire.0 as int]@;
                row.update(from_level as int, (row[from_level as int] - 1) as u8)
            } else {
                old(self).wire_predecessor_counts@[wire.0 as int]@
            }),
            final(self).wire_predecessor_masks@ == old(self).wire_predecessor_masks@.update(
                wire.0 as int,
                final(self).wire_predecessor_masks@[wire.0 as int],
            ),
            mask_matches(
                final(self).wire_predecessor_counts@[wire.0 as int]@,
                final(self).wire_predecessor_masks@[wire.0 as int],
            ),
            final(self).outputs == old(self).outputs,
            final(self).wire_powers == old(self).wire_powers,
            final(self).direct_wire_powers == old(self).direct_wire_powers,
            final(self).fast_inputs == old(self).fast_inputs,
            final(self).fast_input_enabled == old(self).fast_input_enabled,
            final(self).fast_input_emitted_epochs == old(self).fast_input_emitted_epochs,
            final(self).fast_input_dirty_epochs == old(self).fast_input_dirty_epochs,
            final(self).fast_input_epoch == old(self).fast_input_epoch,
            final(self).wire_inputs_dirty == old(self).wire_inputs_dirty,
            final(self).queue == old(self).queue,
            final(self).ordered_stack == old(self).ordered_stack,
    {
        let index = wire.index();
        let mut row = self.wire_predecessor_counts[index];
        let mut mask = self.wire_predecessor_masks[index];
        update_bucket(&mut row, &mut mask, from_level, to_level);
        self.wire_predecessor_counts.set(index, row);
        self.wire_predecessor_masks.set(index, mask);
    }

    /// The power that wire `wire` should have: the stronger of its direct
    /// power and the highest level in its buckets.
    fn wire_target_power(&self, network: &StaticNetwork, wire: NetworkWireId) -> (power: u8)
        requires
            wire.0 < network.wires.count(),
            self.inv(network),
        ensures
            power == (if highest_level(self.wire_predecessor_counts@[wire.0 as int]@, 15)
                > self.direct_wire_powers@[wire.0 as int] {
                highest_level(self.wire_predecessor_counts@[wire.0 as int]@, 15)
            } else {
                self.direct_wire_powers@[wire.0 as int] as int
            }),
            power <= 15,
    {
        let index = wire.index();
        assert(mask_matches(self.wire_predecessor_counts@[index as int]@, self.wire_predecessor_masks@[index as int]));
        let predecessor_power = highest_set_level(
            self.wire_predecessor_masks[index],
            Ghost(self.wire_predecessor_counts@[index as int]@),
        );
        proof {
            lemma_highest_level_range(self.wire_predecessor_counts@[index as int]@, 15);
        }
        let direct = self.direct_wire_powers[index];
        if predecessor_power > direct {
            predecessor_power
        } else {
            direct
        }
    }
}

/// The power that an input port reads: a node's output less the port's
/// attenuation, or a wire's power; zero for a missing node or wire.
pub open spec fn port_power(port: NetworkInputPort, outputs: Seq<u8>, powers: Seq<u8>) -> u8 {
    if !flagged(port.source) {
        if port.source < outputs.len() {
            if outputs[port.source as int] > port.attenuation {
                (outputs[port.source as int] - port.attenuation) as u8
            } else {
                0
            }
        } else {
            0
        }
    } else if unflagged(port.source) < powers.len() {
        powers[unflagged(port.source) as int]
    } else {
        0
    }
}

/// The strongest power at each input of a node: its constant input, raised
/// by every port of the matching kind.
pub open spec fn input_power(
    ports: Seq<NetworkInputPort>,
    base: NetworkInputPower,
    outputs: Seq<u8>,
    powers: Seq<u8>,
) -> NetworkInputPower
    decreases ports.len(),
{
    if ports.len() == 0 {
        base
    } else {
        let rest = input_power(ports.drop_last(), base, outputs, powers);
        let port = ports.last();
        let power = port_power(port, outputs, powers);
        match port.kind {
            NetworkInputKind::Default => NetworkInputPower {
                default: if power > rest.default {
                    power
                } else {
                    rest.default
                },
                side: rest.side,
            },
            NetworkInputKind::Side => NetworkInputPower {
                default: rest.default,
                side: if power > rest.side {
                    power
                } else {
                    rest.side
                },
            },
        }
    }
}

/// The power at the default and side inputs of node `node`: its constant
/// input raised by each of its ports.
pub open spec fn node_input(network: &StaticNetwork, node: int, outputs: Seq<u8>, powers: Seq<u8>) -> NetworkInputPower {
    input_power(
        network.inputs_of(node),
        if 0 <= node < network.node_total() {
            network.nodes@[node].constant_input
        } else {
            NetworkInputPower { default: 0, side: 0 }
        },
        outputs,
        powers,
    )
}

impl NetworkRuntime {
    /// The power at the default and side inputs of node `node`.
    fn node_input_power(&self, network: &StaticNetwork, node: NetworkNodeId) -> (power: NetworkInputPower)
        requires
            csr_ranges_in_bounds(network.input_offsets@, network.input_ports@.len() as int),
        ensures
            power == node_input(network, node.0 as int, self.outputs@, self.wire_powers@),
    {
        let mut result = match network.node(node) {
            Some(found) => found.constant_input,
            None => NetworkInputPower::zero(),
        };
        let ghost base = result;
        let ports = network.input_ports(node);
        let mut k: usize = 0;
        while k < ports.len()
            invariant
                k <= ports@.len(),
                ports@ == network.inputs_of(node.0 as int),
                result == input_power(ports@.subrange(0, k as int), base, self.outputs@, self.wire_powers@),
            decreases ports@.len() - k,
        {
            assert(ports@.subrange(0, k + 1).drop_last() =~= ports@.subrange(0, k as int));
            let port = ports[k];
            let from_node = match port.node_id() {
                Some(source) => {
                    if source.index() < self.outputs.len() {
                        Some(self.outputs[source.index()].saturating_sub(port.attenuation))
                    } else {
                        None
                    }
                },
                None => None,
            };
            let power = match from_node {
                Some(power) => power,
                None => match port.wire_id() {
                    Some(wire) => match self.wire_power(wire) {
                        Some(power) => power,
                        None => 0,
                    },
                    None => 0,
                },
            };
            match port.kind {
                NetworkInputKind::Default => {
                    if power > result.default {
                        result.default = power;
                    }
                },
                NetworkInputKind::Side => {
                    if power > result.side {
                        result.side = power;
                    }
                },
            }
            k += 1;
        }
        assert(ports@.subrange(0, ports@.len() as int) =~= ports@);
        result
    }

    /// Recomputes every wire's direct power from its sources.
    fn rebuild_direct_wire_powers(&mut self, network: &StaticNetwork)
        requires
            network.wires.tables_in_bounds(),
            network.wires.count() <= u32::MAX,
            old(self).direct_wire_powers@.len() == network.wires.count(),
            forall|i: int| 0 <= i < old(self).outputs@.len() ==> #[trigger] old(self).outputs@[i] <= 15,
        ensures
            final(self).direct_wire_powers@.len() == network.wires.count(),
            forall|i: int|
                0 <= i < network.wires.count() ==> #[trigger] final(self).direct_wire_powers@[i]
                    == source_max(network.wires.sources_of(i), final(self).outputs@),
            forall|i: int|
                0 <= i < network.wires.count() ==> #[trigger] final(self).direct_wire_powers@[i] <= 15,
            final(self).outputs == old(self).outputs,
            final(self).wire_powers == old(self).wire_powers,
            final(self).wire_predecessor_counts == old(self).wire_predecessor_counts,
            final(self).wire_predecessor_masks == old(self).wire_predecessor_masks,
            final(self).fast_inputs == old(self).fast_inputs,
            final(self).fast_input_enabled == old(self).fast_input_enabled,
            final(self).fast_input_emitted_epochs == old(self).fast_input_emitted_epochs,
            final(self).fast_input_dirty_epochs == old(self).fast_input_dirty_epochs,
            final(self).fast_input_epoch == old(self).fast_input_epoch,
            final(self).wire_inputs_dirty == old(self).wire_inputs_dirty,
    {
        let count = network.wire_count();
        let mut index: usize = 0;
        while index < count
            invariant
                count == network.wires.count(),
                count <= u32::MAX,
                index <= count,
                network.wires.tables_in_bounds(),
                self.direct_wire_powers@.len() == count,
                forall|i: int| 0 <= i < self.outputs@.len() ==> #[trigger] self.outputs@[i] <= 15,
                forall|i: int|
                    0 <= i < index ==> #[trigger] self.direct_wire_powers@[i] == source_max(
                        network.wires.sources_of(i),
                        self.outputs@,
                    ),
                forall|i: int| 0 <= i < index ==> #[trigger] self.direct_wire_powers@[i] <= 15,
                self.outputs == old(self).outputs,
                self.wire_powers == old(self).wire_powers,
                self.wire_predecessor_counts == old(self).wire_predecessor_counts,
                self.wire_predecessor_masks == old(self).wire_predecessor_masks,
                self.fast_inputs == old(self).fast_inputs,
                self.fast_input_enabled == old(self).fast_input_enabled,
                self.fast_input_emitted_epochs == old(self).fast_input_emitted_epochs,
                self.fast_input_dirty_epochs == old(self).fast_input_dirty_epochs,
                self.fast_input_epoch == old(self).fast_input_epoch,
                self.wire_inputs_dirty == old(self).wire_inputs_dirty,
            decreases count - index,
        {
            let power = self.scan_direct_wire_power(network, NetworkWireId(index as u32));
            self.direct_wire_powers.set(index, power);
            index += 1;
        }
    }

    /// Adds the level contributed by wire `source_index` to the buckets of
    /// every wire it powers.
    #[verifier::spinoff_prover]
    #[verifier::rlimit(100)]
    fn add_contributions(&mut self, network: &StaticNetwork, source_index: usize)
        requires
            source_index < network.wires.count(),
            network.wires.count() <= u32::MAX,
            network.wires.well_formed(),
            network.wires.tables_in_bounds(),
            buckets_fit(network.wires),
            old(self).wire_powers@.len() == network.wires.count(),
            forall|i: int| 0 <= i < network.wires.count() ==> #[trigger] old(self).wire_powers@[i] <= 15,
            buckets_match(
                network.wires,
                old(self).wire_powers@,
                old(self).wire_predecessor_counts@,
                old(self).wire_predecessor_masks@,
                source_index as int,
            ),
        ensures
            buckets_match(
                network.wires,
                final(self).wire_powers@,
                final(self).wire_predecessor_counts@,
                final(self).wire_predecessor_masks@,
                source_index + 1,
            ),
            final(self).outputs == old(self).outputs,
            final(self).wire_powers == old(self).wire_powers,
            final(self).direct_wire_powers == old(self).direct_wire_powers,
            final(self).fast_inputs == old(self).fast_inputs,
            final(self).fast_input_enabled == old(self).fast_input_enabled,
            final(self).fast_input_emitted_epochs == old(self).fast_input_emitted_epochs,
            final(self).fast_input_dirty_epochs == old(self).fast_input_dirty_epochs,
            final(self).fast_input_epoch == old(self).fast_input_epoch,
            final(self).wire_inputs_dirty == old(self).wire_inputs_dirty,
    {
        let count = network.wire_count();
            let source = NetworkWireId(source_index as u32);
        let contribution_level = self.wire_powers[source_index].saturating_sub(1);
        if contribution_level != 0 {
            let targets = network.wires.dependents(source);
            let mut k: usize = 0;
            while k < targets.len()
                invariant
                    count == network.wires.count(),
                    source_index < count,
                    k <= targets@.len(),
                    targets@ == network.wires.dependents_of(source_index as int),
                    network.wires.well_formed(),
                    buckets_fit(network.wires),
                    self.wire_powers@.len() == count,
                    contribution_level == contribution(self.wire_powers@[source_index as int]),
                    1 <= contribution_level < 16,
                    self.wire_predecessor_counts@.len() == count,
                    self.wire_predecessor_masks@.len() == count,
                    forall|w: int, p: int|
                        0 <= w < count && 1 <= p < 16 ==> (
                        #[trigger] self.wire_predecessor_counts@[w]@[p]) as nat == level_count(
                            network.wires,
                            self.wire_powers@,
                            w,
                            p,
                            source_index as int,
                        ) + if p == contribution_level {
                            occurrences(targets@.subrange(0, k as int), w)
                        } else {
                            0nat
                        },
                    forall|w: int|
                        0 <= w < count ==> #[trigger] mask_matches(
                            self.wire_predecessor_counts@[w]@,
                            self.wire_predecessor_masks@[w],
                        ),
                    self.outputs == old(self).outputs,
                    self.wire_powers == old(self).wire_powers,
                    self.direct_wire_powers == old(self).direct_wire_powers,
                    self.fast_inputs == old(self).fast_inputs,
                    self.fast_input_enabled == old(self).fast_input_enabled,
                    self.fast_input_emitted_epochs == old(self).fast_input_emitted_epochs,
                    self.fast_input_dirty_epochs == old(self).fast_input_dirty_epochs,
                    self.fast_input_epoch == old(self).fast_input_epoch,
                    self.wire_inputs_dirty == old(self).wire_inputs_dirty,
                decreases targets@.len() - k,
            {
                let target = targets[k];
                let ghost x = target.0 as int;
                proof {
                    lemma_dependents_in_range(network.wires, source_index as int, k as int);
                    lemma_occurrences_prefix(targets@, k as int, x);
                    lemma_occurrences_prefix_le(targets@, k + 1, x);
                    lemma_level_count_le_degree(
                        network.wires,
                        self.wire_powers@,
                        x,
                        contribution_level as int,
                        source_index + 1,
                    );
                    lemma_in_degree_mono(network.wires, x, source_index + 1, count as int);
                    assert(in_degree(network.wires, x, count as int) <= 255);
                    assert(level_count(network.wires, self.wire_powers@, x, contribution_level as int, source_index + 1)
                        == level_count(network.wires, self.wire_powers@, x, contribution_level as int, source_index as int)
                        + occurrences(targets@, x));
                }
                let ghost before = self.wire_predecessor_counts@;
                self.increment_predecessor_bucket(target, contribution_level);
                proof {
                    assert forall|w: int, p: int|
                        0 <= w < count && 1 <= p < 16 implies (
                        #[trigger] self.wire_predecessor_counts@[w]@[p]) as nat == level_count(
                            network.wires,
                            self.wire_powers@,
                            w,
                            p,
                            source_index as int,
                        ) + if p == contribution_level {
                            occurrences(targets@.subrange(0, k + 1), w)
                        } else {
                            0nat
                        } by {
                        lemma_occurrences_prefix(targets@, k as int, w);
                        if w != x {
                            assert(self.wire_predecessor_counts@[w] == before[w]);
                        }
                    }
                    assert forall|w: int|
                        0 <= w < count implies #[trigger] mask_matches(
                            self.wire_predecessor_counts@[w]@,
                            self.wire_predecessor_masks@[w],
                        ) by {
                        if w != x {
                            assert(self.wire_predecessor_counts@[w] == before[w]);
                        }
                    }
                }
                k += 1;
            }
            proof {
                assert(targets@.subrange(0, targets@.len() as int) =~= targets@);
            }
        }
        proof {
            assert forall|w: int, p: int|
                0 <= w < count && 1 <= p < 16 implies (
                #[trigger] self.wire_predecessor_counts@[w]@[p]) as nat == level_count(
                    network.wires,
                    self.wire_powers@,
                    w,
                    p,
                    source_index + 1,
                ) by {
                lemma_level_count_step(network.wires, self.wire_powers@, w, p, source_index as int);
            }
        }
    }

    /// Recounts every wire's buckets from the current wire powers.
    fn rebuild_predecessor_buckets(&mut self, network: &StaticNetwork)
        requires
            network.wires.well_formed(),
            buckets_fit(network.wires),
            old(self).wire_powers@.len() == network.wires.count(),
            old(self).wire_predecessor_counts@.len() == network.wires.count(),
            old(self).wire_predecessor_masks@.len() == network.wires.count(),
            network.wires.count() <= u32::MAX,
            forall|i: int|
                0 <= i < network.wires.count() ==> #[trigger] old(self).wire_powers@[i] <= 15,
        ensures
            buckets_match(
                network.wires,
                final(self).wire_powers@,
                final(self).wire_predecessor_counts@,
                final(self).wire_predecessor_masks@,
                network.wires.count(),
            ),
            final(self).outputs == old(self).outputs,
            final(self).wire_powers == old(self).wire_powers,
            final(self).direct_wire_powers == old(self).direct_wire_powers,
            final(self).fast_inputs == old(self).fast_inputs,
            final(self).fast_input_enabled == old(self).fast_input_enabled,
            final(self).fast_input_emitted_epochs == old(self).fast_input_emitted_epochs,
            final(self).fast_input_dirty_epochs == old(self).fast_input_dirty_epochs,
            final(self).fast_input_epoch == old(self).fast_input_epoch,
            final(self).wire_inputs_dirty == old(self).wire_inputs_dirty,
    {
        let count = network.wire_count();
        proof {
            network.wires.lemma_well_formed_in_bounds();
        }
        let mut index: usize = 0;
        while index < count
            invariant
                count == network.wires.count(),
                index <= count,
                self.wire_predecessor_counts@.len() == count,
                self.wire_predecessor_masks@.len() == count,
                forall|w: int, p: int|
                    0 <= w < index && 0 <= p < 16 ==> (#[trigger] self.wire_predecessor_counts@[w]@[p])
                        == 0,
                forall|w: int| 0 <= w < index ==> #[trigger] self.wire_predecessor_masks@[w] == 0,
                self.outputs == old(self).outputs,
                self.wire_powers == old(self).wire_powers,
                self.direct_wire_powers == old(self).direct_wire_powers,
                self.fast_inputs == old(self).fast_inputs,
                self.fast_input_enabled == old(self).fast_input_enabled,
                self.fast_input_emitted_epochs == old(self).fast_input_emitted_epochs,
                self.fast_input_dirty_epochs == old(self).fast_input_dirty_epochs,
                self.fast_input_epoch == old(self).fast_input_epoch,
                self.wire_inputs_dirty == old(self).wire_inputs_dirty,
            decreases count - index,
        {
            self.wire_predecessor_counts.set(index, [0u8; 16]);
            self.wire_predecessor_masks.set(index, 0);
            index += 1;
        }
        proof {
            assert forall|w: int| 0 <= w < count implies #[trigger] mask_matches(
                self.wire_predecessor_counts@[w]@,
                self.wire_predecessor_masks@[w],
            ) by {
                assert forall|p: int| 0 <= p < 16 implies #[trigger] crate::compiled::buckets::bit_set(
                    self.wire_predecessor_masks@[w],
                    p,
                ) == (1 <= p && self.wire_predecessor_counts@[w]@[p] > 0) by {
                    let q = p as u16;
                    assert((0u16 >> q) & 1u16 == 0u16) by (bit_vector);
                }
            }
        }
        let mut source_index: usize = 0;
        while source_index < count
            invariant
                count == network.wires.count(),
                count <= u32::MAX,
                source_index <= count,
                network.wires.well_formed(),
                network.wires.tables_in_bounds(),
                buckets_fit(network.wires),
                self.wire_powers@.len() == count,
                forall|i: int| 0 <= i < count ==> #[trigger] self.wire_powers@[i] <= 15,
                buckets_match(
                    network.wires,
                    self.wire_powers@,
                    self.wire_predecessor_counts@,
                    self.wire_predecessor_masks@,
                    source_index as int,
                ),
                self.outputs == old(self).outputs,
                self.wire_powers == old(self).wire_powers,
                self.direct_wire_powers == old(self).direct_wire_powers,
                self.fast_inputs == old(self).fast_inputs,
                self.fast_input_enabled == old(self).fast_input_enabled,
                self.fast_input_emitted_epochs == old(self).fast_input_emitted_epochs,
                self.fast_input_dirty_epochs == old(self).fast_input_dirty_epochs,
                self.fast_input_epoch == old(self).fast_input_epoch,
                self.wire_inputs_dirty == old(self).wire_inputs_dirty,
            decreases count - source_index,
        {
            self.add_contributions(network, source_index);
            source_index += 1;
        }
    }
}

/// Whether wire `v` appears in `queue`.
pub open spec fn queued(queue: Seq<NetworkWireId>, v: int) -> bool {
    exists|i: int| 0 <= i < queue.len() && #[trigger] queue[i].0 == v
}

/// Whether every wire that wire `v` powers stands at least at `v`'s contribution.
pub open spec fn feeds(graph: DenseWireGraph, powers: Seq<u8>, v: int) -> bool {
    forall|k: int|
        0 <= k < graph.dependents_of(v).len() ==> powers[#[trigger] graph.dependents_of(v)[k].0 as int]
            >= contribution(powers[v])
}

/// Whether every wire feeds its dependents, unless it still waits in `queue`.
#[verifier::opaque]
pub open spec fn covered(graph: DenseWireGraph, powers: Seq<u8>, queue: Seq<NetworkWireId>) -> bool {
    forall|v: int| 0 <= v < graph.count() ==> queued(queue, v) || #[trigger] feeds(graph, powers, v)
}

/// Whether wire `w` stands at its direct power or at no more than the
/// contribution of some wire that powers it.
pub open spec fn supported(graph: DenseWireGraph, powers: Seq<u8>, direct: Seq<u8>, w: int) -> bool {
    ||| powers[w] == direct[w]
    ||| exists|v: int|
        0 <= v < graph.count() && #[trigger] occurrences(graph.dependents_of(v), w) > 0 && powers[w]
            <= contribution(powers[v])
}

/// Whether every wire other than `s` feeds its dependents, unless it still
/// waits in `queue`.
#[verifier::opaque]
pub open spec fn covered_except(graph: DenseWireGraph, powers: Seq<u8>, queue: Seq<NetworkWireId>, s: int) -> bool {
    forall|v: int| 0 <= v < graph.count() ==> queued(queue, v) || v == s || #[trigger] feeds(graph, powers, v)
}

/// Whether every wire is supported.
#[verifier::opaque]
pub open spec fn justified(graph: DenseWireGraph, powers: Seq<u8>, direct: Seq<u8>) -> bool {
    forall|w: int| 0 <= w < graph.count() ==> #[trigger] supported(graph, powers, direct, w)
}

/// Whether every wire stands at its target power.
pub open spec fn settled(graph: DenseWireGraph, powers: Seq<u8>, direct: Seq<u8>) -> bool {
    forall|w: int| 0 <= w < graph.count() ==> #[trigger] powers[w] == target_power(graph, powers, direct, w)
}

/// The room left below full power, summed over the first `upto` wires.
pub open spec fn slack(powers: Seq<u8>, upto: int) -> int
    decreases upto,
{
    if upto <= 0 {
        0
    } else {
        slack(powers, upto - 1) + (15 - powers[upto - 1])
    }
}

proof fn lemma_slack_update(powers: Seq<u8>, i: int, x: u8, upto: int)
    requires
        0 <= i < powers.len(),
        upto <= powers.len(),
    ensures
        slack(powers.update(i, x), upto) == slack(powers, upto) - if i < upto {
            x - powers[i]
        } else {
            0
        },
    decreases upto,
{
    if upto > 0 {
        lemma_slack_update(powers, i, x, upto - 1);
    }
}

proof fn lemma_slack_nonnegative(powers: Seq<u8>, upto: int)
    requires
        upto <= powers.len(),
        forall|i: int| 0 <= i < upto ==> #[trigger] powers[i] <= 15,
    ensures
        slack(powers, upto) >= 0,
    decreases upto,
{
    if upto > 0 {
        lemma_slack_nonnegative(powers, upto - 1);
    }
}

proof fn lemma_top_level_at_most(graph: DenseWireGraph, powers: Seq<u8>, w: int, from: int, bound: int)
    requires
        bound >= 0,
        forall|p: int| bound < p <= from ==> #[trigger] level_count(graph, powers, w, p, graph.count()) == 0,
    ensures
        top_level(graph, powers, w, from) <= bound,
    decreases from,
{
    if from > 0 && from > bound {
        lemma_top_level_at_most(graph, powers, w, from - 1, bound);
    } else {
        lemma_top_level_range(graph, powers, w, from);
    }
}

proof fn lemma_top_level_range(graph: DenseWireGraph, powers: Seq<u8>, w: int, from: int)
    ensures
        0 <= top_level(graph, powers, w, from),
        top_level(graph, powers, w, from) <= if from > 0 {
            from
        } else {
            0
        },
    decreases from,
{
    if from > 0 {
        lemma_top_level_range(graph, powers, w, from - 1);
    }
}

proof fn lemma_top_level_at_least(graph: DenseWireGraph, powers: Seq<u8>, w: int, from: int, p: int)
    requires
        1 <= p <= from,
        level_count(graph, powers, w, p, graph.count()) > 0,
    ensures
        top_level(graph, powers, w, from) >= p,
    decreases from,
{
    if from > p && level_count(graph, powers, w, from, graph.count()) == 0 {
        lemma_top_level_at_least(graph, powers, w, from - 1, p);
    }
}

/// With nothing left in the queue, covered and justified powers are settled.
proof fn lemma_settled(graph: DenseWireGraph, powers: Seq<u8>, direct: Seq<u8>)
    requires
        powers.len() == graph.count(),
        direct.len() == graph.count(),
        graph.well_formed(),
        forall|w: int| 0 <= w < graph.count() ==> #[trigger] powers[w] <= 15,
        forall|w: int| 0 <= w < graph.count() ==> #[trigger] direct[w] <= powers[w],
        covered(graph, powers, Seq::empty()),
        justified(graph, powers, direct),
    ensures
        settled(graph, powers, direct),
{
    reveal(covered);
    reveal(justified);
    let n = graph.count();
    assert forall|w: int| 0 <= w < n implies #[trigger] powers[w] == target_power(graph, powers, direct, w) by {
        let level = powers[w] as int;
        assert forall|p: int| level < p <= 15 implies #[trigger] level_count(graph, powers, w, p, n) == 0 by {
            lemma_level_count_positive(graph, powers, w, p, n);
            if level_count(graph, powers, w, p, n) > 0 {
                let v = choose|v: int|
                    0 <= v < n && contribution(powers[v]) == p && #[trigger] occurrences(
                        graph.dependents_of(v),
                        w,
                    ) > 0;
                lemma_occurrences_positive(graph.dependents_of(v), w);
                let k = choose|k: int| 0 <= k < graph.dependents_of(v).len() && #[trigger] graph.dependents_of(v)[k].0 == w;
                assert(!queued(Seq::<NetworkWireId>::empty(), v));
                assert(feeds(graph, powers, v));
            }
        }
        lemma_top_level_at_most(graph, powers, w, 15, level);
        assert(supported(graph, powers, direct, w));
        if powers[w] != direct[w] {
            let v = choose|v: int|
                0 <= v < n && #[trigger] occurrences(graph.dependents_of(v), w) > 0 && powers[w]
                    <= contribution(powers[v]);
            lemma_occurrences_positive(graph.dependents_of(v), w);
            let k = choose|k: int| 0 <= k < graph.dependents_of(v).len() && #[trigger] graph.dependents_of(v)[k].0 == w;
            assert(!queued(Seq::<NetworkWireId>::empty(), v));
            assert(feeds(graph, powers, v));
            assert(contribution(powers[v]) == level);
            if level >= 1 {
                lemma_level_count_positive(graph, powers, w, level, n);
                lemma_top_level_at_least(graph, powers, w, 15, level);
            }
        }
    }
}

proof fn lemma_level_count_step(graph: DenseWireGraph, powers: Seq<u8>, w: int, level: int, upto: int)
    requires
        upto >= 0,
    ensures
        level_count(graph, powers, w, level, upto + 1) == level_count(graph, powers, w, level, upto)
            + if contribution(powers[upto]) == level {
            occurrences(graph.dependents_of(upto), w)
        } else {
            0nat
        },
{
}

proof fn lemma_highest_level_range(row: Seq<u8>, from: int)
    requires
        from <= 15,
    ensures
        0 <= highest_level(row, from) <= 15,
    decreases from,
{
    if from > 0 {
        lemma_highest_level_range(row, from - 1);
    }
}

/// Whether every dependent entry of every wire names a wire of the graph.
pub open spec fn links_in_range(graph: DenseWireGraph) -> bool {
    forall|v: int, j: int|
        0 <= v < graph.count() && 0 <= j < graph.dependents_of(v).len() ==> (
        #[trigger] graph.dependents_of(v)[j]).0 < graph.count()
}

proof fn lemma_links_in_range(graph: DenseWireGraph)
    requires
        graph.well_formed(),
    ensures
        links_in_range(graph),
{
    assert forall|v: int, j: int|
        0 <= v < graph.count() && 0 <= j < graph.dependents_of(v).len() implies (
        #[trigger] graph.dependents_of(v)[j]).0 < graph.count() by {
        lemma_dependents_in_range(graph, v, j);
    }
}

/// Raising dependent `k` of wire `s` to `s`'s contribution, and queueing it,
/// keeps every other wire covered and every wire supported, and uses up slack.
proof fn lemma_raise_step(
    graph: DenseWireGraph,
    powers: Seq<u8>,
    direct: Seq<u8>,
    queue: Seq<NetworkWireId>,
    s: int,
    k: int,
)
    requires
        links_in_range(graph),
        powers.len() == graph.count(),
        direct.len() == graph.count(),
        0 <= s < graph.count(),
        0 <= k < graph.dependents_of(s).len(),
        powers[graph.dependents_of(s)[k].0 as int] < contribution(powers[s]),
        forall|i: int| 0 <= i < graph.count() ==> #[trigger] powers[i] <= 15,
        forall|j: int|
            0 <= j < k ==> powers[#[trigger] graph.dependents_of(s)[j].0 as int] >= contribution(
                powers[s],
            ),
        covered_except(graph, powers, queue, s),
        justified(graph, powers, direct),
    ensures
        ({
            let t = graph.dependents_of(s)[k].0 as int;
            let raised = powers.update(t, contribution(powers[s]) as u8);
            let queue2 = queue.push(graph.dependents_of(s)[k]);
            &&& t != s
            &&& raised[s] == powers[s]
            &&& covered_except(graph, raised, queue2, s)
            &&& justified(graph, raised, direct)
            &&& forall|j: int|
                0 <= j <= k ==> raised[#[trigger] graph.dependents_of(s)[j].0 as int] >= contribution(
                    powers[s],
                )
            &&& slack(raised, graph.count()) < slack(powers, graph.count())
        }),
{
    reveal(covered_except);
    reveal(justified);
    let n = graph.count();
    let deps = graph.dependents_of(s);
    let t = deps[k].0 as int;
    let p = contribution(powers[s]);
    let raised = powers.update(t, p as u8);
    let queue2 = queue.push(deps[k]);
    lemma_slack_update(powers, t, p as u8, n);
    assert(queue2[queue.len() as int].0 == t);
    assert forall|v: int| 0 <= v < n implies queued(queue2, v) || v == s || #[trigger] feeds(
        graph,
        raised,
        v,
    ) by {
        if queued(queue, v) {
            let j = choose|j: int| 0 <= j < queue.len() && #[trigger] queue[j].0 == v;
            assert(queue2[j] == queue[j]);
        } else if v != s && v != t {
            assert(feeds(graph, powers, v));
            assert forall|j: int| 0 <= j < graph.dependents_of(v).len() implies raised[
                #[trigger] graph.dependents_of(v)[j].0 as int
            ] >= contribution(raised[v]) by {
            }
        }
    }
    assert forall|j: int| 0 <= j <= k implies raised[#[trigger] deps[j].0 as int] >= p by {
    }
    lemma_occurrences_positive(deps, t);
    assert forall|w: int| 0 <= w < n implies #[trigger] supported(graph, raised, direct, w) by {
        if w == t {
            assert(occurrences(graph.dependents_of(s), w) > 0 && raised[w] <= contribution(raised[s]));
        } else {
            assert(supported(graph, powers, direct, w));
            if powers[w] != direct[w] {
                let v = choose|v: int|
                    0 <= v < n && #[trigger] occurrences(graph.dependents_of(v), w) > 0 && powers[w]
                        <= contribution(powers[v]);
                assert(occurrences(graph.dependents_of(v), w) > 0 && raised[w] <= contribution(raised[v]));
            }
        }
    }
}

/// Taking the first wire off the queue leaves every other wire covered.
proof fn lemma_after_pop(graph: DenseWireGraph, powers: Seq<u8>, queue: Seq<NetworkWireId>)
    requires
        queue.len() > 0,
        covered(graph, powers, queue),
    ensures
        covered_except(graph, powers, queue.subrange(1, queue.len() as int), queue[0].0 as int),
{
    reveal(covered);
    reveal(covered_except);
    let rest = queue.subrange(1, queue.len() as int);
    assert forall|v: int| 0 <= v < graph.count() implies queued(rest, v) || v == queue[0].0 || #[trigger] feeds(
        graph,
        powers,
        v,
    ) by {
        if queued(queue, v) && v != queue[0].0 {
            let j = choose|j: int| 0 <= j < queue.len() && #[trigger] queue[j].0 == v;
            assert(rest[j - 1] == queue[j]);
        }
    }
}

/// A wire whose dependents all stand at its contribution completes the cover.
proof fn lemma_feeds_done(graph: DenseWireGraph, powers: Seq<u8>, queue: Seq<NetworkWireId>, s: int)
    requires
        covered_except(graph, powers, queue, s),
        feeds(graph, powers, s),
    ensures
        covered(graph, powers, queue),
{
    reveal(covered);
    reveal(covered_except);
}

/// Wires at their direct powers, with every powered wire queued, are covered
/// and supported.
proof fn lemma_initial_cover(graph: DenseWireGraph, powers: Seq<u8>, direct: Seq<u8>, queue: Seq<NetworkWireId>)
    requires
        powers.len() == graph.count(),
        direct.len() == graph.count(),
        forall|i: int| 0 <= i < graph.count() ==> #[trigger] powers[i] == direct[i],
        forall|i: int| 0 <= i < graph.count() && powers[i] > 0 ==> #[trigger] queued(queue, i),
    ensures
        covered(graph, powers, queue),
        justified(graph, powers, direct),
{
    reveal(covered);
    reveal(justified);
    assert forall|v: int| 0 <= v < graph.count() implies queued(queue, v) || #[trigger] feeds(
        graph,
        powers,
        v,
    ) by {
        if powers[v] == 0 {
            assert(contribution(powers[v]) == 0);
        }
    }
    assert forall|w: int| 0 <= w < graph.count() implies #[trigger] supported(graph, powers, direct, w) by {
        assert(powers[w] == direct[w]);
    }
}

impl NetworkRuntime {
    /// The power that wire `wire` receives from its source nodes: the stored
    /// value, or a fresh scan for a wire the table does not cover.
    fn direct_wire_power(&self, network: &StaticNetwork, wire: NetworkWireId) -> (power: u8)
        requires
            network.wires.tables_in_bounds(),
            forall|i: int| 0 <= i < self.outputs@.len() ==> #[trigger] self.outputs@[i] <= 15,
        ensures
            power == (if wire.0 < self.direct_wire_powers@.len() {
                self.direct_wire_powers@[wire.0 as int]
            } else {
                source_max(network.wires.sources_of(wire.0 as int), self.outputs@)
            }),
    {
        if wire.index() < self.direct_wire_powers.len() {
            self.direct_wire_powers[wire.index()]
        } else {
            self.scan_direct_wire_power(network, wire)
        }
    }

    /// Raises every dependent of wire `source` that stands below the
    /// source's contribution to that contribution, and queues it.
    fn raise_dependents(&mut self, network: &StaticNetwork, source: NetworkWireId)
        requires
            network.wires.well_formed(),
            source.0 < network.wires.count(),
            old(self).wire_powers@.len() == network.wires.count(),
            old(self).direct_wire_powers@.len() == network.wires.count(),
            forall|i: int| 0 <= i < network.wires.count() ==> #[trigger] old(self).wire_powers@[i] <= 15,
            forall|i: int|
                0 <= i < network.wires.count() ==> #[trigger] old(self).direct_wire_powers@[i]
                    <= old(self).wire_powers@[i],
            forall|i: int|
                0 <= i < old(self).queue@.len() ==> #[trigger] old(self).queue@[i].0 < network.wires.count(),
            covered_except(network.wires, old(self).wire_powers@, old(self).queue@, source.0 as int),
            justified(network.wires, old(self).wire_powers@, old(self).direct_wire_powers@),
        ensures
            final(self).wire_powers@.len() == network.wires.count(),
            forall|i: int| 0 <= i < network.wires.count() ==> #[trigger] final(self).wire_powers@[i] <= 15,
            forall|i: int|
                0 <= i < network.wires.count() ==> #[trigger] final(self).direct_wire_powers@[i]
                    <= final(self).wire_powers@[i],
            forall|i: int|
                0 <= i < final(self).queue@.len() ==> #[trigger] final(self).queue@[i].0 < network.wires.count(),
            covered(network.wires, final(self).wire_powers@, final(self).queue@),
            justified(network.wires, final(self).wire_powers@, final(self).direct_wire_powers@),
            16 * slack(final(self).wire_powers@, network.wires.count()) + final(self).queue@.len()
                <= 16 * slack(old(self).wire_powers@, network.wires.count()) + old(self).queue@.len(),
            final(self).outputs == old(self).outputs,
            final(self).direct_wire_powers == old(self).direct_wire_powers,
            final(self).wire_predecessor_counts == old(self).wire_predecessor_counts,
            final(self).wire_predecessor_masks == old(self).wire_predecessor_masks,
            final(self).fast_inputs == old(self).fast_inputs,
            final(self).fast_input_enabled == old(self).fast_input_enabled,
            final(self).fast_input_emitted_epochs == old(self).fast_input_emitted_epochs,
            final(self).fast_input_dirty_epochs == old(self).fast_input_dirty_epochs,
            final(self).fast_input_epoch == old(self).fast_input_epoch,
            final(self).wire_inputs_dirty == old(self).wire_inputs_dirty,
    {
        let ghost graph = network.wires;
        let ghost count = graph.count();
        let ghost s = source.0 as int;
        let ghost start = 16 * slack(self.wire_powers@, count) + self.queue@.len();
        proof {
            network.wires.lemma_well_formed_in_bounds();
            lemma_links_in_range(graph);
        }
        let propagated = self.wire_powers[source.index()].saturating_sub(1);
        let targets = network.wires.dependents(source);
        let mut k: usize = 0;
        while k < targets.len()
            invariant
                count == graph.count(),
                graph == network.wires,
                links_in_range(graph),
                0 <= s < count,
                k <= targets@.len(),
                targets@ == graph.dependents_of(s),
                propagated as int == contribution(self.wire_powers@[s]),
                self.wire_powers@.len() == count,
                self.direct_wire_powers@.len() == count,
                forall|i: int| 0 <= i < count ==> #[trigger] self.wire_powers@[i] <= 15,
                forall|i: int| 0 <= i < count ==> #[trigger] self.direct_wire_powers@[i] <= self.wire_powers@[i],
                forall|i: int| 0 <= i < self.queue@.len() ==> #[trigger] self.queue@[i].0 < count,
                forall|j: int| 0 <= j < k ==> self.wire_powers@[#[trigger] targets@[j].0 as int] >= propagated,
                covered_except(graph, self.wire_powers@, self.queue@, s),
                justified(graph, self.wire_powers@, self.direct_wire_powers@),
                16 * slack(self.wire_powers@, count) + self.queue@.len() <= start,
                self.outputs == old(self).outputs,
                self.direct_wire_powers == old(self).direct_wire_powers,
                self.wire_predecessor_counts == old(self).wire_predecessor_counts,
                self.wire_predecessor_masks == old(self).wire_predecessor_masks,
                self.fast_inputs == old(self).fast_inputs,
                self.fast_input_enabled == old(self).fast_input_enabled,
                self.fast_input_emitted_epochs == old(self).fast_input_emitted_epochs,
                self.fast_input_dirty_epochs == old(self).fast_input_dirty_epochs,
                self.fast_input_epoch == old(self).fast_input_epoch,
                self.wire_inputs_dirty == old(self).wire_inputs_dirty,
            decreases targets@.len() - k,
        {
            let target = targets[k];
            if self.wire_powers[target.index()] < propagated {
                proof {
                    lemma_raise_step(
                        graph,
                        self.wire_powers@,
                        self.direct_wire_powers@,
                        self.queue@,
                        s,
                        k as int,
                    );
                }
                self.wire_powers.set(target.index(), propagated);
                self.queue.push_back(target);
            }
            k += 1;
        }
        proof {
            assert(feeds(graph, self.wire_powers@, s));
            lemma_feeds_done(graph, self.wire_powers@, self.queue@, s);
        }
    }

    /// Raises every wire from its direct power along its dependents until
    /// nothing changes, so that every wire ends at its target power.
    fn rebuild_all_wires(&mut self, network: &StaticNetwork)
        requires
            network.wires.well_formed(),
            network.wires.count() <= u32::MAX,
            old(self).wire_powers@.len() == network.wires.count(),
            old(self).direct_wire_powers@.len() == network.wires.count(),
            forall|i: int|
                0 <= i < network.wires.count() ==> #[trigger] old(self).direct_wire_powers@[i] <= 15,
            forall|i: int| 0 <= i < old(self).outputs@.len() ==> #[trigger] old(self).outputs@[i] <= 15,
        ensures
            final(self).wire_powers@.len() == network.wires.count(),
            forall|i: int|
                0 <= i < network.wires.count() ==> #[trigger] final(self).wire_powers@[i] <= 15,
            forall|i: int|
                0 <= i < network.wires.count() ==> #[trigger] final(self).direct_wire_powers@[i]
                    <= final(self).wire_powers@[i],
            settled(network.wires, final(self).wire_powers@, final(self).direct_wire_powers@),
            final(self).outputs == old(self).outputs,
            final(self).direct_wire_powers == old(self).direct_wire_powers,
            final(self).wire_predecessor_counts == old(self).wire_predecessor_counts,
            final(self).wire_predecessor_masks == old(self).wire_predecessor_masks,
            final(self).fast_inputs == old(self).fast_inputs,
            final(self).fast_input_enabled == old(self).fast_input_enabled,
            final(self).fast_input_emitted_epochs == old(self).fast_input_emitted_epochs,
            final(self).fast_input_dirty_epochs == old(self).fast_input_dirty_epochs,
            final(self).fast_input_epoch == old(self).fast_input_epoch,
            final(self).wire_inputs_dirty == old(self).wire_inputs_dirty,
    {
        let count = network.wire_count();
        let ghost graph = network.wires;
        proof {
            network.wires.lemma_well_formed_in_bounds();
        }
        self.queue.clear();
        let mut index: usize = 0;
        while index < count
            invariant
                count == graph.count(),
                graph == network.wires,
                count <= u32::MAX,
                index <= count,
                network.wires.tables_in_bounds(),
                self.wire_powers@.len() == count,
                self.direct_wire_powers@.len() == count,
                forall|i: int| 0 <= i < count ==> #[trigger] self.direct_wire_powers@[i] <= 15,
                forall|i: int| 0 <= i < self.outputs@.len() ==> #[trigger] self.outputs@[i] <= 15,
                forall|i: int| 0 <= i < index ==> #[trigger] self.wire_powers@[i] == self.direct_wire_powers@[i],
                forall|i: int| 0 <= i < index && self.wire_powers@[i] > 0 ==> #[trigger] queued(self.queue@, i),
                forall|i: int| 0 <= i < self.queue@.len() ==> #[trigger] self.queue@[i].0 < count,
                self.outputs == old(self).outputs,
                self.direct_wire_powers == old(self).direct_wire_powers,
                self.wire_predecessor_counts == old(self).wire_predecessor_counts,
                self.wire_predecessor_masks == old(self).wire_predecessor_masks,
                self.fast_inputs == old(self).fast_inputs,
                self.fast_input_enabled == old(self).fast_input_enabled,
                self.fast_input_emitted_epochs == old(self).fast_input_emitted_epochs,
                self.fast_input_dirty_epochs == old(self).fast_input_dirty_epochs,
                self.fast_input_epoch == old(self).fast_input_epoch,
                self.wire_inputs_dirty == old(self).wire_inputs_dirty,
            decreases count - index,
        {
            let wire = NetworkWireId(index as u32);
            let power = self.direct_wire_power(network, wire);
            let ghost before_powers = self.wire_powers@;
            let ghost before = self.queue@;
            self.wire_powers.set(index, power);
            if power > 0 {
                self.queue.push_back(wire);
                proof {
                    assert(self.queue@[before.len() as int].0 == index);
                }
            }
            proof {
                assert forall|i: int| 0 <= i < index + 1 && self.wire_powers@[i] > 0 implies #[trigger] queued(self.queue@, i) by {
                    if i < index {
                        assert(before_powers[i] == self.wire_powers@[i]);
                        assert(queued(before, i));
                        let j = choose|j: int| 0 <= j < before.len() && #[trigger] before[j].0 == i;
                        assert(self.queue@[j] == before[j]);
                    } else {
                        assert(self.queue@[before.len() as int].0 == index);
                    }
                }
            }
            index += 1;
        }
        proof {
            lemma_initial_cover(graph, self.wire_powers@, self.direct_wire_powers@, self.queue@);
        }
        loop
            invariant
                count == graph.count(),
                graph == network.wires,
                graph.well_formed(),
                self.wire_powers@.len() == count,
                self.direct_wire_powers@.len() == count,
                forall|i: int| 0 <= i < count ==> #[trigger] self.wire_powers@[i] <= 15,
                forall|i: int| 0 <= i < count ==> #[trigger] self.direct_wire_powers@[i] <= self.wire_powers@[i],
                forall|i: int| 0 <= i < self.queue@.len() ==> #[trigger] self.queue@[i].0 < count,
                covered(graph, self.wire_powers@, self.queue@),
                justified(graph, self.wire_powers@, self.direct_wire_powers@),
                self.outputs == old(self).outputs,
                self.direct_wire_powers == old(self).direct_wire_powers,
                self.wire_predecessor_counts == old(self).wire_predecessor_counts,
                self.wire_predecessor_masks == old(self).wire_predecessor_masks,
                self.fast_inputs == old(self).fast_inputs,
                self.fast_input_enabled == old(self).fast_input_enabled,
                self.fast_input_emitted_epochs == old(self).fast_input_emitted_epochs,
                self.fast_input_dirty_epochs == old(self).fast_input_dirty_epochs,
                self.fast_input_epoch == old(self).fast_input_epoch,
                self.wire_inputs_dirty == old(self).wire_inputs_dirty,
            ensures
                self.queue@.len() == 0,
            decreases 16 * slack(self.wire_powers@, count as int) + self.queue@.len(),
        {
            proof {
                lemma_slack_nonnegative(self.wire_powers@, count as int);
            }
            let ghost before_pop = self.queue@;
            let source = match self.queue.pop_front() {
                Some(source) => source,
                None => {
                    break;
                },
            };
            proof {
                lemma_after_pop(graph, self.wire_powers@, before_pop);
            }
            self.raise_dependents(network, source);
            proof {
                lemma_slack_nonnegative(self.wire_powers@, count as int);
            }
        }
        proof {
            assert(self.queue@ =~= Seq::<NetworkWireId>::empty());
            lemma_settled(graph, self.wire_powers@, self.direct_wire_powers@);
        }
    }
}

impl NetworkRuntime {
    /// Recomputes the fast input of every node that reads its inputs on the
    /// fast path.
    fn refresh_fast_inputs(&mut self, network: &StaticNetwork)
        requires
            csr_ranges_in_bounds(network.input_offsets@, network.input_ports@.len() as int),
            network.node_total() <= u32::MAX,
            old(self).fast_inputs@.len() == network.node_total(),
        ensures
            final(self).fast_inputs@.len() == network.node_total(),
            forall|i: int|
                0 <= i < network.node_total() ==> #[trigger] final(self).fast_inputs@[i] == if network.nodes@[i].fast_input {
                    node_input(network, i, final(self).outputs@, final(self).wire_powers@)
                } else {
                    old(self).fast_inputs@[i]
                },
            final(self).outputs == old(self).outputs,
            final(self).wire_powers == old(self).wire_powers,
            final(self).direct_wire_powers == old(self).direct_wire_powers,
            final(self).wire_predecessor_counts == old(self).wire_predecessor_counts,
            final(self).wire_predecessor_masks == old(self).wire_predecessor_masks,
            final(self).fast_input_enabled == old(self).fast_input_enabled,
            final(self).fast_input_emitted_epochs == old(self).fast_input_emitted_epochs,
            final(self).fast_input_dirty_epochs == old(self).fast_input_dirty_epochs,
            final(self).fast_input_epoch == old(self).fast_input_epoch,
            final(self).wire_inputs_dirty == old(self).wire_inputs_dirty,
    {
        let count = network.node_count();
        let mut index: usize = 0;
        while index < count
            invariant
                count == network.node_total(),
                count <= u32::MAX,
                index <= count,
                csr_ranges_in_bounds(network.input_offsets@, network.input_ports@.len() as int),
                self.fast_inputs@.len() == count,
                forall|i: int|
                    0 <= i < index ==> #[trigger] self.fast_inputs@[i] == if network.nodes@[i].fast_input {
                        node_input(network, i, self.outputs@, self.wire_powers@)
                    } else {
                        old(self).fast_inputs@[i]
                    },
                forall|i: int| index <= i < count ==> #[trigger] self.fast_inputs@[i] == old(self).fast_inputs@[i],
                self.outputs == old(self).outputs,
                self.wire_powers == old(self).wire_powers,
                self.direct_wire_powers == old(self).direct_wire_powers,
                self.wire_predecessor_counts == old(self).wire_predecessor_counts,
                self.wire_predecessor_masks == old(self).wire_predecessor_masks,
                self.fast_input_enabled == old(self).fast_input_enabled,
                self.fast_input_emitted_epochs == old(self).fast_input_emitted_epochs,
                self.fast_input_dirty_epochs == old(self).fast_input_dirty_epochs,
                self.fast_input_epoch == old(self).fast_input_epoch,
                self.wire_inputs_dirty == old(self).wire_inputs_dirty,
            decreases count - index,
        {
            let node = NetworkNodeId(index as u32);
            if network.node_has_fast_input(node) {
                let power = self.node_input_power(network, node);
                self.fast_inputs.set(index, power);
            }
            index += 1;
        }
    }

    /// A runtime that holds the world as it stands: each node's starting
    /// output, each wire's recorded power, the direct powers and buckets that
    /// follow from them, and the fast inputs of the fast-path nodes.
    pub fn from_world_state(network: &StaticNetwork, comparator_outputs: &PositionMap<u8>) -> (runtime: NetworkRuntime)
        requires
            network_ready(network),
        ensures
            runtime.inv(network),
            forall|i: int|
                0 <= i < network.node_total() ==> #[trigger] runtime.output_levels()[i] == starting_output(
                    network.nodes@[i],
                    *comparator_outputs,
                ),
            forall|w: int|
                0 <= w < network.wires.count() ==> #[trigger] runtime.powers()[w]
                    == network.wires.initial_power@[w],
            forall|w: int|
                0 <= w < network.wires.count() ==> #[trigger] runtime.direct_levels()[w] == source_max(
                    network.wires.sources_of(w),
                    runtime.output_levels(),
                ),
            forall|i: int|
                0 <= i < network.node_total() ==> #[trigger] runtime.fast_enabled()[i]
                    == network.nodes@[i].fast_input,
            forall|i: int|
                0 <= i < network.node_total() ==> #[trigger] runtime.fast_input_levels()[i] == if network.nodes@[i].fast_input {
                    node_input(network, i, runtime.output_levels(), runtime.powers())
                } else {
                    NetworkInputPower { default: 0, side: 0 }
                },
            forall|w: int| 0 <= w < network.wires.count() ==> !(#[trigger] runtime.dirty_wires()[w]),
    {
        proof {
            lemma_network_ready(network);
        }
        let node_count = network.node_count();
        let wire_count = network.wire_count();
        let mut outputs: Vec<u8> = Vec::new();
        let mut index: usize = 0;
        while index < node_count
            invariant
                node_count == network.node_total(),
                index <= node_count,
                outputs@.len() == index,
                forall|i: int| 0 <= i < index ==> #[trigger] outputs@[i] == starting_output(network.nodes@[i], *comparator_outputs),
            decreases node_count - index,
        {
            let node = &network.nodes[index];
            let fallback = match node.constant_output {
                Some(output) => output,
                None => node.initial_output,
            };
            let raw = if node.kind == NetworkNodeKind::Comparator {
                match comparator_outputs.get(node.pos) {
                    Some(output) => *output,
                    None => fallback,
                }
            } else {
                fallback
            };
            outputs.push(if raw > 15 { 15 } else { raw });
            index += 1;
        }
        let mut wire_powers: Vec<u8> = Vec::new();
        let mut direct_wire_powers: Vec<u8> = Vec::new();
        let mut wire_predecessor_counts: Vec<[u8; 16]> = Vec::new();
        let mut wire_predecessor_masks: Vec<u16> = Vec::new();
        let mut wire_inputs_dirty: Vec<bool> = Vec::new();
        let mut index: usize = 0;
        while index < wire_count
            invariant
                wire_count == network.wires.count(),
                network.wires.initial_power@.len() == wire_count,
                network.wires.states@.len() == wire_count,
                wire_count <= u32::MAX,
                index <= wire_count,
                wire_powers@.len() == index,
                direct_wire_powers@.len() == index,
                wire_predecessor_counts@.len() == index,
                wire_predecessor_masks@.len() == index,
                wire_inputs_dirty@.len() == index,
                forall|w: int| 0 <= w < index ==> #[trigger] wire_powers@[w] == network.wires.initial_power@[w],
                forall|w: int| 0 <= w < index ==> !(#[trigger] wire_inputs_dirty@[w]),
            decreases wire_count - index,
        {
            let power = match network.wire(NetworkWireId(index as u32)) {
                Some(wire) => wire.initial_power,
                None => 0,
            };
            wire_powers.push(power);
            direct_wire_powers.push(0);
            wire_predecessor_counts.push([0u8; 16]);
            wire_predecessor_masks.push(0);
            wire_inputs_dirty.push(false);
            index += 1;
        }
        let mut fast_inputs: Vec<NetworkInputPower> = Vec::new();
        let mut fast_input_enabled: Vec<bool> = Vec::new();
        let mut fast_input_emitted_epochs: Vec<u32> = Vec::new();
        let mut fast_input_dirty_epochs: Vec<u32> = Vec::new();
        let mut index: usize = 0;
        while index < node_count
            invariant
                node_count == network.node_total(),
                node_count <= u32::MAX,
                index <= node_count,
                fast_inputs@.len() == index,
                fast_input_enabled@.len() == index,
                fast_input_emitted_epochs@.len() == index,
                fast_input_dirty_epochs@.len() == index,
                forall|i: int| 0 <= i < index ==> #[trigger] fast_inputs@[i] == (NetworkInputPower { default: 0, side: 0 }),
                forall|i: int| 0 <= i < index ==> #[trigger] fast_input_enabled@[i] == network.nodes@[i].fast_input,
            decreases node_count - index,
        {
            fast_inputs.push(NetworkInputPower::zero());
            fast_input_enabled.push(network.node_has_fast_input(NetworkNodeId(index as u32)));
            fast_input_emitted_epochs.push(0);
            fast_input_dirty_epochs.push(0);
            index += 1;
        }
        let mut runtime = NetworkRuntime {
            outputs,
            wire_powers,
            direct_wire_powers,
            wire_predecessor_counts,
            wire_predecessor_masks,
            fast_inputs,
            fast_input_enabled,
            fast_input_emitted_epochs,
            fast_input_dirty_epochs,
            fast_input_epoch: 0,
            wire_inputs_dirty,
            queue: VecDeque::new(),
            ordered_stack: Vec::new(),
        };
        runtime.rebuild_direct_wire_powers(network);
        runtime.rebuild_predecessor_buckets(network);
        runtime.refresh_fast_inputs(network);
        runtime
    }

    /// A runtime over the world as it stands, with every wire then raised to
    /// the power its sources and predecessors give it.
    pub fn new(network: &StaticNetwork, comparator_outputs: &PositionMap<u8>) -> (runtime: NetworkRuntime)
        requires
            network_ready(network),
        ensures
            runtime.inv(network),
            settled(network.wires, runtime.powers(), runtime.direct_levels()),
            forall|i: int|
                0 <= i < network.node_total() ==> #[trigger] runtime.output_levels()[i] == starting_output(
                    network.nodes@[i],
                    *comparator_outputs,
                ),
            forall|w: int|
                0 <= w < network.wires.count() ==> #[trigger] runtime.direct_levels()[w] == source_max(
                    network.wires.sources_of(w),
                    runtime.output_levels(),
                ),
            forall|w: int|
                0 <= w < network.wires.count() ==> #[trigger] runtime.direct_levels()[w]
                    <= runtime.powers()[w],
            forall|i: int|
                0 <= i < network.node_total() ==> #[trigger] runtime.fast_enabled()[i]
                    == network.nodes@[i].fast_input,
            forall|i: int|
                0 <= i < network.node_total() ==> #[trigger] runtime.fast_input_levels()[i] == if network.nodes@[i].fast_input {
                    node_input(network, i, runtime.output_levels(), runtime.powers())
                } else {
                    NetworkInputPower { default: 0, side: 0 }
                },
            forall|w: int| 0 <= w < network.wires.count() ==> !(#[trigger] runtime.dirty_wires()[w]),
    {
        proof {
            lemma_network_ready(network);
        }
        let mut runtime = NetworkRuntime::from_world_state(network, comparator_outputs);
        let ghost first = runtime;
        runtime.rebuild_all_wires(network);
        runtime.rebuild_predecessor_buckets(network);
        assert(runtime.fast_input_levels() == first.fast_input_levels());
        runtime.refresh_fast_inputs(network);
        assert(runtime.dirty_wires() == first.dirty_wires());
        assert(runtime.output_levels() == first.output_levels());
        assert(runtime.direct_levels() == first.direct_levels());
        assert(runtime.fast_enabled() == first.fast_enabled());
        runtime
    }
}

/// The wire powers after replaying, in order, the wire changes among `events` on `powers`.
pub open spec fn replay(powers: Seq<u8>, events: Seq<OrderedWireEvent>) -> Seq<u8>
    decreases events.len(),
{
    if events.len() == 0 {
        powers
    } else {
        let before = replay(powers, events.drop_last());
        match events.last() {
            OrderedWireEvent::Wire(change) => before.update(change.wire.0 as int, change.new_power),
            OrderedWireEvent::Boundary { .. } => before,
        }
    }
}

/// The wire powers after undoing, last first, the wire changes among `events` on `powers`.
pub open spec fn unwind(powers: Seq<u8>, events: Seq<OrderedWireEvent>) -> Seq<u8>
    decreases events.len(),
{
    if events.len() == 0 {
        powers
    } else {
        let restored = match events.last() {
            OrderedWireEvent::Wire(change) => powers.update(change.wire.0 as int, change.old_power),
            OrderedWireEvent::Boundary { .. } => powers,
        };
        unwind(restored, events.drop_last())
    }
}

/// Whether each wire change among `events` names a wire of `powers`, starts
/// from the power that wire holds at that point of the replay, and ends at a
/// signal level.
pub open spec fn chained(powers: Seq<u8>, events: Seq<OrderedWireEvent>) -> bool
    decreases events.len(),
{
    if events.len() == 0 {
        true
    } else {
        &&& chained(powers, events.drop_last())
        &&& match events.last() {
            OrderedWireEvent::Wire(change) => {
                &&& change.wire.0 < powers.len()
                &&& replay(powers, events.drop_last())[change.wire.0 as int] == change.old_power
                &&& change.new_power <= 15
            },
            OrderedWireEvent::Boundary { .. } => true,
        }
    }
}

/// Undoing a chain of wire changes, last first, gives back the powers it
/// was replayed on.
pub proof fn law_unwind_replay(powers: Seq<u8>, events: Seq<OrderedWireEvent>)
    requires
        chained(powers, events),
    ensures
        unwind(replay(powers, events), events) == powers,
    decreases events.len(),
{
    if events.len() > 0 {
        let rest = events.drop_last();
        law_unwind_replay(powers, rest);
        lemma_replay_len(powers, rest);
        let before = replay(powers, rest);
        match events.last() {
            OrderedWireEvent::Wire(change) => {
                let w = change.wire.0 as int;
                assert(before.update(w, change.new_power).update(w, change.old_power) =~= before);
            },
            OrderedWireEvent::Boundary { .. } => {},
        }
    }
}

/// Replaying a chain keeps the length of the powers.
proof fn lemma_replay_len(powers: Seq<u8>, events: Seq<OrderedWireEvent>)
    requires
        chained(powers, events),
    ensures
        replay(powers, events).len() == powers.len(),
    decreases events.len(),
{
    if events.len() > 0 {
        lemma_replay_len(powers, events.drop_last());
    }
}

/// Replaying a chain keeps the length of the powers and keeps them signal levels.
proof fn lemma_replay_levels(powers: Seq<u8>, events: Seq<OrderedWireEvent>)
    requires
        chained(powers, events),
        forall|i: int| 0 <= i < powers.len() ==> #[trigger] powers[i] <= 15,
    ensures
        replay(powers, events).len() == powers.len(),
        forall|i: int| 0 <= i < powers.len() ==> #[trigger] replay(powers, events)[i] <= 15,
    decreases events.len(),
{
    if events.len() > 0 {
        lemma_replay_levels(powers, events.drop_last());
    }
}

/// With `contribution(powers[v])` away from `level`, the entries of `v` that
/// name `w` fit beside the count at `level` within `w`'s in-degree.
proof fn lemma_level_count_room(graph: DenseWireGraph, powers: Seq<u8>, v: int, w: int, level: int, upto: int)
    requires
        0 <= v < upto <= powers.len(),
        contribution(powers[v]) != level,
    ensures
        level_count(graph, powers, w, level, upto) + occurrences(graph.dependents_of(v), w)
            <= in_degree(graph, w, upto),
    decreases upto,
{
    if upto - 1 > v {
        lemma_level_count_room(graph, powers, v, w, level, upto - 1);
    } else {
        lemma_level_count_le_degree(graph, powers, w, level, upto - 1);
    }
}

impl NetworkRuntime {
    /// Moves the contribution of wire `wire` in its dependents' buckets from
    /// the level of `from_power` to the level of `to_power`, the power the
    /// wire now holds.
    #[verifier::spinoff_prover]
    #[verifier::rlimit(100)]
    fn move_contributions(&mut self, network: &StaticNetwork, wire: NetworkWireId, from_power: u8, to_power: u8)
        requires
            network.wires.well_formed(),
            buckets_fit(network.wires),
            wire.0 < network.wires.count(),
            from_power <= 15,
            old(self).wire_powers@.len() == network.wires.count(),
            old(self).wire_powers@[wire.0 as int] == to_power,
            forall|i: int| 0 <= i < network.wires.count() ==> #[trigger] old(self).wire_powers@[i] <= 15,
            buckets_match(
                network.wires,
                old(self).wire_powers@.update(wire.0 as int, from_power),
                old(self).wire_predecessor_counts@,
                old(self).wire_predecessor_masks@,
                network.wires.count(),
            ),
        ensures
            buckets_match(
                network.wires,
                final(self).wire_powers@,
                final(self).wire_predecessor_counts@,
                final(self).wire_predecessor_masks@,
                network.wires.count(),
            ),
            final(self).outputs == old(self).outputs,
            final(self).wire_powers == old(self).wire_powers,
            final(self).direct_wire_powers == old(self).direct_wire_powers,
            final(self).fast_inputs == old(self).fast_inputs,
            final(self).fast_input_enabled == old(self).fast_input_enabled,
            final(self).fast_input_emitted_epochs == old(self).fast_input_emitted_epochs,
            final(self).fast_input_dirty_epochs == old(self).fast_input_dirty_epochs,
            final(self).fast_input_epoch == old(self).fast_input_epoch,
            final(self).wire_inputs_dirty == old(self).wire_inputs_dirty,
            final(self).queue == old(self).queue,
            final(self).ordered_stack == old(self).ordered_stack,
    {
        let ghost graph = network.wires;
        let ghost count = graph.count();
        let ghost v = wire.0 as int;
        let ghost before = self.wire_powers@.update(v, from_power);
        proof {
            network.wires.lemma_well_formed_in_bounds();
            assert(before.update(v, to_power) =~= self.wire_powers@);
        }
        let from_level = from_power.saturating_sub(1);
        let to_level = to_power.saturating_sub(1);
        if from_level == to_level {
            proof {
                assert forall|w: int, p: int|
                    0 <= w < count && 1 <= p < 16 implies (#[trigger] self.wire_predecessor_counts@[w]@[p]) as nat
                        == level_count(graph, self.wire_powers@, w, p, count) by {
                    lemma_level_count_update(graph, before, v, to_power, w, p, count);
                }
            }
            return;
        }
        let targets = network.wires.dependents(wire);
        let mut k: usize = 0;
        while k < targets.len()
            invariant
                count == graph.count(),
                graph == network.wires,
                graph.well_formed(),
                buckets_fit(graph),
                0 <= v < count,
                k <= targets@.len(),
                targets@ == graph.dependents_of(v),
                before.len() == count,
                before[v] == from_power,
                from_level as int == contribution(from_power),
                to_level as int == contribution(to_power),
                from_level != to_level,
                from_level < 16,
                to_level < 16,
                self.wire_predecessor_counts@.len() == count,
                self.wire_predecessor_masks@.len() == count,
                forall|w: int, p: int|
                    0 <= w < count && 1 <= p < 16 ==> (#[trigger] self.wire_predecessor_counts@[w]@[p]) as int
                        == level_count(graph, before, w, p, count) - (if p == from_level {
                        occurrences(targets@.subrange(0, k as int), w) as int
                    } else {
                        0int
                    }) + (if p == to_level {
                        occurrences(targets@.subrange(0, k as int), w) as int
                    } else {
                        0int
                    }),
                forall|w: int|
                    0 <= w < count ==> #[trigger] mask_matches(
                        self.wire_predecessor_counts@[w]@,
                        self.wire_predecessor_masks@[w],
                    ),
                self.outputs == old(self).outputs,
                self.wire_powers == old(self).wire_powers,
                self.direct_wire_powers == old(self).direct_wire_powers,
                self.fast_inputs == old(self).fast_inputs,
                self.fast_input_enabled == old(self).fast_input_enabled,
                self.fast_input_emitted_epochs == old(self).fast_input_emitted_epochs,
                self.fast_input_dirty_epochs == old(self).fast_input_dirty_epochs,
                self.fast_input_epoch == old(self).fast_input_epoch,
                self.wire_inputs_dirty == old(self).wire_inputs_dirty,
                self.queue == old(self).queue,
                self.ordered_stack == old(self).ordered_stack,
            decreases targets@.len() - k,
        {
            let target = targets[k];
            let ghost x = target.0 as int;
            proof {
                lemma_dependents_in_range(graph, v, k as int);
                lemma_occurrences_prefix(targets@, k as int, x);
                lemma_occurrences_prefix_le(targets@, k + 1, x);
                if from_level > 0 {
                    lemma_level_count_bounds(graph, before, v, x, from_level as int, count);
                }
                if to_level > 0 {
                    lemma_level_count_room(graph, before, v, x, to_level as int, count);
                }
            }
            let ghost prior = self.wire_predecessor_counts@;
            self.update_predecessor_bucket(target, from_level, to_level);
            proof {
                assert forall|w: int, p: int|
                    0 <= w < count && 1 <= p < 16 implies (#[trigger] self.wire_predecessor_counts@[w]@[p]) as int
                        == level_count(graph, before, w, p, count) - (if p == from_level {
                        occurrences(targets@.subrange(0, k + 1), w) as int
                    } else {
                        0int
                    }) + (if p == to_level {
                        occurrences(targets@.subrange(0, k + 1), w) as int
                    } else {
                        0int
                    }) by {
                    lemma_occurrences_prefix(targets@, k as int, w);
                    if w != x {
                        assert(self.wire_predecessor_counts@[w] == prior[w]);
                    }
                }
                assert forall|w: int| 0 <= w < count implies #[trigger] mask_matches(
                    self.wire_predecessor_counts@[w]@,
                    self.wire_predecessor_masks@[w],
                ) by {
                    if w != x {
                        assert(self.wire_predecessor_counts@[w] == prior[w]);
                    }
                }
            }
            k += 1;
        }
        proof {
            assert(targets@.subrange(0, targets@.len() as int) =~= targets@);
            assert forall|w: int, p: int|
                0 <= w < count && 1 <= p < 16 implies (#[trigger] self.wire_predecessor_counts@[w]@[p]) as nat
                    == level_count(graph, self.wire_powers@, w, p, count) by {
                lemma_level_count_update(graph, before, v, to_power, w, p, count);
            }
        }
    }

    /// Undoes, last first, the wire changes among `events`, which were
    /// replayed on `base` to give the current powers, and marks every wire
    /// for recomputation.
    fn rollback_ordered(
        &mut self,
        network: &StaticNetwork,
        events: &Vec<OrderedWireEvent>,
        Ghost(base): Ghost<Seq<u8>>,
    )
        requires
            network_ready(network),
            old(self).inv(network),
            chained(base, events@),
            old(self).wire_powers@ == replay(base, events@),
            base.len() == network.wires.count(),
            forall|i: int| 0 <= i < base.len() ==> #[trigger] base[i] <= 15,
        ensures
            final(self).inv(network),
            final(self).wire_powers@ == base,
            forall|w: int| 0 <= w < network.wires.count() ==> #[trigger] final(self).wire_inputs_dirty@[w],
            final(self).outputs == old(self).outputs,
            final(self).direct_wire_powers == old(self).direct_wire_powers,
            final(self).fast_inputs == old(self).fast_inputs,
            final(self).fast_input_enabled == old(self).fast_input_enabled,
            final(self).fast_input_emitted_epochs == old(self).fast_input_emitted_epochs,
            final(self).fast_input_dirty_epochs == old(self).fast_input_dirty_epochs,
            final(self).fast_input_epoch == old(self).fast_input_epoch,
            final(self).queue == old(self).queue,
            final(self).ordered_stack == old(self).ordered_stack,
    {
        let ghost count = network.wires.count();
        proof {
            lemma_network_ready(network);
        }
        let mut index = events.len();
        proof {
            assert(events@.subrange(0, index as int) =~= events@);
        }
        while index > 0
            invariant
                network_ready(network),
                network.wires.well_formed(),
                buckets_fit(network.wires),
                count == network.wires.count(),
                index <= events@.len(),
                chained(base, events@.subrange(0, index as int)),
                self.wire_powers@ == replay(base, events@.subrange(0, index as int)),
                base.len() == count,
                forall|i: int| 0 <= i < base.len() ==> #[trigger] base[i] <= 15,
                self.inv(network),
                self.outputs == old(self).outputs,
                self.direct_wire_powers == old(self).direct_wire_powers,
                self.fast_inputs == old(self).fast_inputs,
                self.fast_input_enabled == old(self).fast_input_enabled,
                self.fast_input_emitted_epochs == old(self).fast_input_emitted_epochs,
                self.fast_input_dirty_epochs == old(self).fast_input_dirty_epochs,
                self.fast_input_epoch == old(self).fast_input_epoch,
                self.wire_inputs_dirty@.len() == count,
                self.queue == old(self).queue,
                self.ordered_stack == old(self).ordered_stack,
            decreases index,
        {
            let ghost prefix = events@.subrange(0, index as int);
            proof {
                assert(prefix.drop_last() =~= events@.subrange(0, index - 1));
                lemma_replay_levels(base, prefix.drop_last());
            }
            index -= 1;
            match events[index] {
                OrderedWireEvent::Wire(change) => {
                    let ghost earlier = self.wire_powers@.update(change.wire.0 as int, change.old_power);
                    self.wire_powers.set(change.wire.index(), change.old_power);
                    proof {
                        let shorter = replay(base, events@.subrange(0, index as int));
                        assert(shorter.update(change.wire.0 as int, change.new_power).update(change.wire.0 as int, change.old_power) =~= shorter);
                        assert(self.wire_powers@.update(change.wire.0 as int, change.new_power) =~= replay(base, prefix));
                    }
                    self.move_contributions(network, change.wire, change.new_power, change.old_power);
                },
                OrderedWireEvent::Boundary { .. } => {},
            }
        }
        proof {
            assert(events@.subrange(0, 0) =~= Seq::<OrderedWireEvent>::empty());
        }
        let mut w: usize = 0;
        while w < self.wire_inputs_dirty.len()
            invariant
                w <= self.wire_inputs_dirty@.len(),
                count == network.wires.count(),
                self.wire_inputs_dirty@.len() == count,
                forall|i: int| 0 <= i < w ==> #[trigger] self.wire_inputs_dirty@[i],
                self.inv(network),
                self.wire_powers@ == base,
                self.outputs == old(self).outputs,
                self.direct_wire_powers == old(self).direct_wire_powers,
                self.fast_inputs == old(self).fast_inputs,
                self.fast_input_enabled == old(self).fast_input_enabled,
                self.fast_input_emitted_epochs == old(self).fast_input_emitted_epochs,
                self.fast_input_dirty_epochs == old(self).fast_input_dirty_epochs,
                self.fast_input_epoch == old(self).fast_input_epoch,
                self.queue == old(self).queue,
                self.ordered_stack == old(self).ordered_stack,
            decreases self.wire_inputs_dirty@.len() - w,
        {
            self.wire_inputs_dirty.set(w, true);
            w += 1;
        }
    }
}

/// Whether some entry of `targets` is a default input of node `i`.
pub open spec fn reads_by_default(targets: Seq<NetworkWireTarget>, i: int) -> bool {
    exists|k: int|
        0 <= k < targets.len() && (#[trigger] targets[k]).target.0 == i && targets[k].kind
            == NetworkInputKind::Default
}

/// Whether a change of wire `wire` refreshes the fast input of node `i`: the
/// node reads the wire at a default input, on the fast path, and the fast
/// path is still enabled for it.
pub open spec fn refreshed_by(network: &StaticNetwork, enabled: Seq<bool>, wire: int, i: int) -> bool {
    &&& 0 <= i < network.node_total()
    &&& network.nodes@[i].fast_input
    &&& enabled[i]
    &&& reads_by_default(network.wires.targets_of(wire), i)
}

proof fn lemma_reads_by_default_prefix(targets: Seq<NetworkWireTarget>, k: int, i: int)
    requires
        0 <= k < targets.len(),
    ensures
        reads_by_default(targets.subrange(0, k + 1), i) == (reads_by_default(targets.subrange(0, k), i)
            || (targets[k].target.0 == i && targets[k].kind == NetworkInputKind::Default)),
{
    let longer = targets.subrange(0, k + 1);
    let shorter = targets.subrange(0, k);
    if reads_by_default(longer, i) {
        let j = choose|j: int|
            0 <= j < longer.len() && (#[trigger] longer[j]).target.0 == i && longer[j].kind
                == NetworkInputKind::Default;
        if j < k {
            assert(shorter[j] == longer[j]);
        }
    }
    if reads_by_default(shorter, i) {
        let j = choose|j: int|
            0 <= j < shorter.len() && (#[trigger] shorter[j]).target.0 == i && shorter[j].kind
                == NetworkInputKind::Default;
        assert(longer[j] == shorter[j]);
    }
    if targets[k].target.0 == i && targets[k].kind == NetworkInputKind::Default {
        assert(longer[k] == targets[k]);
    }
}

impl NetworkRuntime {
    /// Opens a new fast-input epoch; when the counter wraps, every recorded
    /// epoch is cleared and counting restarts at one.
    fn start_epoch(&mut self)
        ensures
            final(self).fast_input_epoch != 0,
            old(self).fast_input_epoch < u32::MAX ==> {
                &&& final(self).fast_input_epoch == old(self).fast_input_epoch + 1
                &&& final(self).fast_input_emitted_epochs == old(self).fast_input_emitted_epochs
                &&& final(self).fast_input_dirty_epochs == old(self).fast_input_dirty_epochs
            },
            old(self).fast_input_epoch == u32::MAX ==> {
                &&& final(self).fast_input_epoch == 1
                &&& final(self).fast_input_emitted_epochs@.len()
                    == old(self).fast_input_emitted_epochs@.len()
                &&& final(self).fast_input_dirty_epochs@.len()
                    == old(self).fast_input_dirty_epochs@.len()
                &&& forall|i: int|
                    0 <= i < final(self).fast_input_emitted_epochs@.len() ==> #[trigger] final(self).fast_input_emitted_epochs@[i] == 0
                &&& forall|i: int|
                    0 <= i < final(self).fast_input_dirty_epochs@.len() ==> #[trigger] final(self).fast_input_dirty_epochs@[i] == 0
            },
            final(self).outputs == old(self).outputs,
            final(self).wire_powers == old(self).wire_powers,
            final(self).direct_wire_powers == old(self).direct_wire_powers,
            final(self).wire_predecessor_counts == old(self).wire_predecessor_counts,
            final(self).wire_predecessor_masks == old(self).wire_predecessor_masks,
            final(self).fast_inputs == old(self).fast_inputs,
            final(self).fast_input_enabled == old(self).fast_input_enabled,
            final(self).wire_inputs_dirty == old(self).wire_inputs_dirty,
            final(self).queue == old(self).queue,
            final(self).ordered_stack == old(self).ordered_stack,
    {
        self.fast_input_epoch = self.fast_input_epoch.wrapping_add(1);
        if self.fast_input_epoch == 0 {
            let mut i: usize = 0;
            while i < self.fast_input_emitted_epochs.len()
                invariant
                    i <= self.fast_input_emitted_epochs@.len(),
                    self.fast_input_emitted_epochs@.len() == old(self).fast_input_emitted_epochs@.len(),
                    forall|j: int| 0 <= j < i ==> #[trigger] self.fast_input_emitted_epochs@[j] == 0,
                    self.fast_input_dirty_epochs == old(self).fast_input_dirty_epochs,
                    self.fast_input_epoch == 0,
                    old(self).fast_input_epoch == u32::MAX,
                    self.outputs == old(self).outputs,
                    self.wire_powers == old(self).wire_powers,
                    self.direct_wire_powers == old(self).direct_wire_powers,
                    self.wire_predecessor_counts == old(self).wire_predecessor_counts,
                    self.wire_predecessor_masks == old(self).wire_predecessor_masks,
                    self.fast_inputs == old(self).fast_inputs,
                    self.fast_input_enabled == old(self).fast_input_enabled,
                    self.wire_inputs_dirty == old(self).wire_inputs_dirty,
                    self.queue == old(self).queue,
                    self.ordered_stack == old(self).ordered_stack,
                decreases self.fast_input_emitted_epochs@.len() - i,
            {
                self.fast_input_emitted_epochs.set(i, 0);
                i += 1;
            }
            let mut i: usize = 0;
            while i < self.fast_input_dirty_epochs.len()
                invariant
                    i <= self.fast_input_dirty_epochs@.len(),
                    self.fast_input_dirty_epochs@.len() == old(self).fast_input_dirty_epochs@.len(),
                    self.fast_input_emitted_epochs@.len() == old(self).fast_input_emitted_epochs@.len(),
                    forall|j: int| 0 <= j < self.fast_input_emitted_epochs@.len() ==> #[trigger] self.fast_input_emitted_epochs@[j] == 0,
                    forall|j: int| 0 <= j < i ==> #[trigger] self.fast_input_dirty_epochs@[j] == 0,
                    self.fast_input_epoch == 0,
                    old(self).fast_input_epoch == u32::MAX,
                    self.outputs == old(self).outputs,
                    self.wire_powers == old(self).wire_powers,
                    self.direct_wire_powers == old(self).direct_wire_powers,
                    self.wire_predecessor_counts == old(self).wire_predecessor_counts,
                    self.wire_predecessor_masks == old(self).wire_predecessor_masks,
                    self.fast_inputs == old(self).fast_inputs,
                    self.fast_input_enabled == old(self).fast_input_enabled,
                    self.wire_inputs_dirty == old(self).wire_inputs_dirty,
                    self.queue == old(self).queue,
                    self.ordered_stack == old(self).ordered_stack,
                decreases self.fast_input_dirty_epochs@.len() - i,
            {
                self.fast_input_dirty_epochs.set(i, 0);
                i += 1;
            }
            self.fast_input_epoch = 1;
        }
    }

    /// Recomputes the fast input of every enabled fast-path node that reads
    /// wire `wire` at a default input, and stamps the ones that changed with
    /// the current epoch.
    fn update_fast_wire_inputs(&mut self, network: &StaticNetwork, wire: NetworkWireId)
        requires
            network.wires.tables_in_bounds(),
            csr_ranges_in_bounds(network.input_offsets@, network.input_ports@.len() as int),
            old(self).fast_inputs@.len() == network.node_total(),
            old(self).fast_input_enabled@.len() == network.node_total(),
            old(self).fast_input_dirty_epochs@.len() == network.node_total(),
        ensures
            final(self).fast_inputs@.len() == network.node_total(),
            final(self).fast_input_dirty_epochs@.len() == network.node_total(),
            forall|i: int|
                0 <= i < network.node_total() ==> #[trigger] final(self).fast_inputs@[i] == if refreshed_by(
                    network,
                    old(self).fast_input_enabled@,
                    wire.0 as int,
                    i,
                ) {
                    node_input(network, i, old(self).outputs@, old(self).wire_powers@)
                } else {
                    old(self).fast_inputs@[i]
                },
            forall|i: int|
                0 <= i < network.node_total() ==> #[trigger] final(self).fast_input_dirty_epochs@[i]
                    == if refreshed_by(network, old(self).fast_input_enabled@, wire.0 as int, i)
                    && old(self).fast_inputs@[i] != node_input(
                    network,
                    i,
                    old(self).outputs@,
                    old(self).wire_powers@,
                ) {
                    old(self).fast_input_epoch
                } else {
                    old(self).fast_input_dirty_epochs@[i]
                },
            final(self).outputs == old(self).outputs,
            final(self).wire_powers == old(self).wire_powers,
            final(self).direct_wire_powers == old(self).direct_wire_powers,
            final(self).wire_predecessor_counts == old(self).wire_predecessor_counts,
            final(self).wire_predecessor_masks == old(self).wire_predecessor_masks,
            final(self).fast_input_enabled == old(self).fast_input_enabled,
            final(self).fast_input_emitted_epochs == old(self).fast_input_emitted_epochs,
            final(self).fast_input_epoch == old(self).fast_input_epoch,
            final(self).wire_inputs_dirty == old(self).wire_inputs_dirty,
            final(self).queue == old(self).queue,
            final(self).ordered_stack == old(self).ordered_stack,
    {
        let targets = network.wires.targets(wire);
        let ghost m = network.node_total();
        let mut k: usize = 0;
        while k < targets.len()
            invariant
                k <= targets@.len(),
                targets@ == network.wires.targets_of(wire.0 as int),
                csr_ranges_in_bounds(network.input_offsets@, network.input_ports@.len() as int),
                m == network.node_total(),
                self.fast_inputs@.len() == m,
                self.fast_input_enabled@.len() == m,
                self.fast_input_dirty_epochs@.len() == m,
                forall|i: int|
                    0 <= i < m ==> #[trigger] self.fast_inputs@[i] == if 0 <= i < m
                        && network.nodes@[i].fast_input && old(self).fast_input_enabled@[i]
                        && reads_by_default(targets@.subrange(0, k as int), i) {
                        node_input(network, i, old(self).outputs@, old(self).wire_powers@)
                    } else {
                        old(self).fast_inputs@[i]
                    },
                forall|i: int|
                    0 <= i < m ==> #[trigger] self.fast_input_dirty_epochs@[i] == if 0 <= i < m
                        && network.nodes@[i].fast_input && old(self).fast_input_enabled@[i]
                        && reads_by_default(targets@.subrange(0, k as int), i)
                        && old(self).fast_inputs@[i] != node_input(
                        network,
                        i,
                        old(self).outputs@,
                        old(self).wire_powers@,
                    ) {
                        old(self).fast_input_epoch
                    } else {
                        old(self).fast_input_dirty_epochs@[i]
                    },
                self.outputs == old(self).outputs,
                self.wire_powers == old(self).wire_powers,
                self.direct_wire_powers == old(self).direct_wire_powers,
                self.wire_predecessor_counts == old(self).wire_predecessor_counts,
                self.wire_predecessor_masks == old(self).wire_predecessor_masks,
                self.fast_input_enabled == old(self).fast_input_enabled,
                self.fast_input_emitted_epochs == old(self).fast_input_emitted_epochs,
                self.fast_input_epoch == old(self).fast_input_epoch,
                self.wire_inputs_dirty == old(self).wire_inputs_dirty,
                self.queue == old(self).queue,
                self.ordered_stack == old(self).ordered_stack,
            decreases targets@.len() - k,
        {
            let target = targets[k];
            proof {
                assert forall|i: int| 0 <= i < m implies #[trigger] reads_by_default(targets@.subrange(0, k + 1), i)
                    == (reads_by_default(targets@.subrange(0, k as int), i) || (target.target.0 == i
                    && target.kind == NetworkInputKind::Default)) by {
                    lemma_reads_by_default_prefix(targets@, k as int, i);
                }
            }
            if target.kind == NetworkInputKind::Default && network.node_has_fast_input(target.target) {
                let index = target.target.index();
                if self.fast_input_enabled[index] {
                    let next = self.node_input_power(network, target.target);
                    if self.fast_inputs[index] != next {
                        self.fast_inputs.set(index, next);
                        self.fast_input_dirty_epochs.set(index, self.fast_input_epoch);
                    }
                }
            }
            k += 1;
        }
        proof {
            assert(targets@.subrange(0, targets@.len() as int) =~= targets@);
        }
    }
}

/// Whether a pending range of the ordered table lies inside a table of `len` entries.
spec fn frame_valid(frame: OrderedTargetFrame, len: int) -> bool {
    frame.next <= frame.end <= len
}

/// The next entry to visit from the range `frame` and the pending ranges
/// `stack`, innermost last, with the range and stack left behind: the next
/// entry of `frame` if it has one, else the next of the innermost pending
/// range that has one; none when every range is done.
pub open spec fn pending_step(frame: OrderedTargetFrame, stack: Seq<OrderedTargetFrame>) -> Option<
    (u32, OrderedTargetFrame, Seq<OrderedTargetFrame>),
>
    decreases stack.len(),
{
    if frame.next != frame.end {
        Some((frame.next, OrderedTargetFrame { next: (frame.next + 1) as u32, end: frame.end }, stack))
    } else if stack.len() == 0 {
        None
    } else {
        pending_step(stack.last(), stack.drop_last())
    }
}

/// The dependents of wire `w` marked on top of `dirty`.
pub open spec fn marked_dependents(graph: DenseWireGraph, dirty: Seq<bool>, w: int) -> Seq<bool> {
    Seq::new(dirty.len(), |i: int| dirty[i] || occurrences(graph.dependents_of(w), i) > 0)
}

/// The fast inputs after wire `w` changed to `powers`: each node it
/// refreshes reads its input anew.
pub open spec fn refreshed_inputs(
    network: &StaticNetwork,
    enabled: Seq<bool>,
    outputs: Seq<u8>,
    powers: Seq<u8>,
    inputs: Seq<NetworkInputPower>,
    w: int,
) -> Seq<NetworkInputPower> {
    Seq::new(
        inputs.len(),
        |i: int|
            if refreshed_by(network, enabled, w, i) {
                node_input(network, i, outputs, powers)
            } else {
                inputs[i]
            },
    )
}

/// The epochs at which fast inputs last changed, after wire `w` changed to
/// `powers`: a refreshed node whose input differs takes `epoch`.
pub open spec fn refreshed_epochs(
    network: &StaticNetwork,
    enabled: Seq<bool>,
    outputs: Seq<u8>,
    powers: Seq<u8>,
    inputs: Seq<NetworkInputPower>,
    epochs: Seq<u32>,
    epoch: u32,
    w: int,
) -> Seq<u32> {
    Seq::new(
        epochs.len(),
        |i: int|
            if refreshed_by(network, enabled, w, i) && inputs[i] != node_input(network, i, outputs, powers) {
                epoch
            } else {
                epochs[i]
            },
    )
}

/// What an ordered walk reads and changes: the wire powers and marks, the
/// fast inputs with the epochs at which they were reported and changed, the
/// current and pending ranges of the ordered table, the next entry to visit
/// and the events recorded so far.
pub struct OrderedWalk {
    pub powers: Seq<u8>,
    pub dirty: Seq<bool>,
    pub inputs: Seq<NetworkInputPower>,
    pub emitted: Seq<u32>,
    pub refreshed: Seq<u32>,
    pub frame: OrderedTargetFrame,
    pub stack: Seq<OrderedTargetFrame>,
    pub target: OrderedWireTarget,
    pub events: Seq<OrderedWireEvent>,
}

/// What stays fixed during an ordered walk: the direct wire powers, the node
/// outputs, the nodes still read on the fast path, the epoch, and the wires
/// refused when `check_disabled` holds.
pub struct WalkSetting {
    pub direct: Seq<u8>,
    pub outputs: Seq<u8>,
    pub enabled: Seq<bool>,
    pub epoch: u32,
    pub check_disabled: bool,
    pub disabled: Seq<bool>,
}

/// The outcome of one step of an ordered walk.
pub enum WalkStep {
    Next(OrderedWalk),
    Done(Result<OrderedWalk, OrderedPropagationError>),
}

/// Visits wire `w`: a refused wire fails; an unmarked wire is left alone; a
/// marked one is unmarked and takes its target power, and when that changes
/// it marks its dependents, refreshes the fast inputs that read it, records
/// the change and opens its ordered range, keeping the current one pending.
pub open spec fn visit_wire(
    network: &StaticNetwork,
    c: WalkSetting,
    s: OrderedWalk,
    w: int,
) -> Result<OrderedWalk, OrderedPropagationError> {
    if c.check_disabled && w < c.disabled.len() && c.disabled[w] {
        Err(OrderedPropagationError::DisabledWireCrossing(NetworkWireId(w as u32)))
    } else if !s.dirty[w] {
        Ok(s)
    } else {
        let next = target_power(network.wires, s.powers, c.direct, w);
        let dirty = s.dirty.update(w, false);
        if next == s.powers[w] {
            Ok(
                OrderedWalk {
                    powers: s.powers,
                    dirty,
                    inputs: s.inputs,
                    emitted: s.emitted,
                    refreshed: s.refreshed,
                    frame: s.frame,
                    stack: s.stack,
                    target: s.target,
                    events: s.events,
                },
            )
        } else {
            let powers = s.powers.update(w, next as u8);
            let start = network.wires.ordered_target_offsets@[w];
            let end = network.wires.ordered_target_offsets@[w + 1];
            let opens = start < end;
            Ok(
                OrderedWalk {
                    powers,
                    dirty: marked_dependents(network.wires, dirty, w),
                    inputs: refreshed_inputs(network, c.enabled, c.outputs, powers, s.inputs, w),
                    emitted: s.emitted,
                    refreshed: refreshed_epochs(
                        network,
                        c.enabled,
                        c.outputs,
                        powers,
                        s.inputs,
                        s.refreshed,
                        c.epoch,
                        w,
                    ),
                    frame: if opens {
                        OrderedTargetFrame { next: start, end }
                    } else {
                        s.frame
                    },
                    stack: if opens && s.frame.next != s.frame.end {
                        s.stack.push(s.frame)
                    } else {
                        s.stack
                    },
                    target: s.target,
                    events: s.events.push(
                        OrderedWireEvent::Wire(
                            WirePowerTransition { wire: NetworkWireId(w as u32), old_power: s.powers[w], new_power: next as u8 },
                        ),
                    ),
                },
            )
        }
    }
}

/// Visits boundary `b`: it is reported with the fast input of its node when
/// that node is enabled, unless the node was reported this epoch and its
/// input has not changed since; without such a node it is reported bare.
pub open spec fn visit_boundary(network: &StaticNetwork, c: WalkSetting, s: OrderedWalk, b: int) -> OrderedWalk {
    let boundary = network.wires.ordered_boundaries@[b];
    if boundary_fast_node(boundary, c.enabled) {
        let node = boundary.fast_input_node->Some_0.0 as int;
        if s.emitted[node] == c.epoch && s.refreshed[node] != c.epoch {
            s
        } else {
            OrderedWalk {
                powers: s.powers,
                dirty: s.dirty,
                inputs: s.inputs,
                emitted: s.emitted.update(node, c.epoch),
                refreshed: s.refreshed.update(node, 0),
                frame: s.frame,
                stack: s.stack,
                target: s.target,
                events: s.events.push(OrderedWireEvent::Boundary { target: b as u32, input: Some(s.inputs[node]) }),
            }
        }
    } else {
        OrderedWalk {
            powers: s.powers,
            dirty: s.dirty,
            inputs: s.inputs,
            emitted: s.emitted,
            refreshed: s.refreshed,
            frame: s.frame,
            stack: s.stack,
            target: s.target,
            events: s.events.push(OrderedWireEvent::Boundary { target: b as u32, input: None }),
        }
    }
}

/// Visits the next entry of an ordered walk: a wire, or a boundary block of
/// the table; an entry past the boundary table fails.
#[verifier::opaque]
pub open spec fn visit(network: &StaticNetwork, c: WalkSetting, s: OrderedWalk) -> Result<
    OrderedWalk,
    OrderedPropagationError,
> {
    if !flagged(s.target.0) {
        visit_wire(network, c, s, s.target.0 as int)
    } else if unflagged(s.target.0) < network.wires.ordered_boundaries@.len() {
        Ok(visit_boundary(network, c, s, unflagged(s.target.0) as int))
    } else {
        Err(OrderedPropagationError::InvalidBoundary(unflagged(s.target.0) as usize))
    }
}

/// One step of an ordered walk: visit the next entry, a wire or a boundary
/// block, then move to the next entry of the current range, else of the
/// innermost pending range; the walk is done when no range is left.
#[verifier::opaque]
pub open spec fn walk_step(network: &StaticNetwork, c: WalkSetting, s: OrderedWalk) -> WalkStep {
    match visit(network, c, s) {
        Err(error) => WalkStep::Done(Err(error)),
        Ok(v) => match pending_step(v.frame, v.stack) {
            None => WalkStep::Done(Ok(v)),
            Some((index, frame, stack)) => WalkStep::Next(
                OrderedWalk {
                    powers: v.powers,
                    dirty: v.dirty,
                    inputs: v.inputs,
                    emitted: v.emitted,
                    refreshed: v.refreshed,
                    frame,
                    stack,
                    target: network.wires.ordered_targets@[index as int],
                    events: v.events,
                },
            ),
        },
    }
}

/// An ordered walk of at most `fuel` steps: its final state, or why it
/// stopped; past `fuel` steps it stops at the iteration limit.
pub open spec fn walk(
    network: &StaticNetwork,
    c: WalkSetting,
    s: OrderedWalk,
    fuel: nat,
) -> Result<OrderedWalk, OrderedPropagationError>
    decreases fuel,
{
    if fuel == 0 {
        Err(OrderedPropagationError::IterationLimitExceeded { limit: ORDERED_PROPAGATION_LIMIT })
    } else {
        match walk_step(network, c, s) {
            WalkStep::Done(result) => result,
            WalkStep::Next(next) => walk(network, c, next, (fuel - 1) as nat),
        }
    }
}

/// Whether the origin of an ordered propagation is a wire that the check of
/// disabled wires refuses.
pub open spec fn origin_blocked(check_disabled: bool, disabled: Seq<bool>, origin: NetworkWireId) -> bool {
    check_disabled && origin.0 < disabled.len() && disabled[origin.0 as int]
}

/// The change recorded when the origin is first recomputed: from its power
/// to its target power.
pub open spec fn first_transition(
    network: &StaticNetwork,
    powers: Seq<u8>,
    direct: Seq<u8>,
    origin: NetworkWireId,
) -> OrderedWireEvent {
    OrderedWireEvent::Wire(
        WirePowerTransition {
            wire: origin,
            old_power: powers[origin.0 as int],
            new_power: target_power(network.wires, powers, direct, origin.0 as int) as u8,
        },
    )
}

/// What the first visit of a wire origin decides: an origin that the check
/// of disabled wires refuses fails with itself; an origin already at its
/// target power ends the propagation at once with no change; otherwise the
/// origin's change is the first event of a successful propagation, and its
/// only one when the origin has no ordered update list.
pub open spec fn origin_outcome(
    network: &StaticNetwork,
    origin: NetworkWireId,
    check_disabled: bool,
    disabled: Seq<bool>,
    powers: Seq<u8>,
    direct: Seq<u8>,
    result: Result<(), OrderedPropagationError>,
    events: Seq<OrderedWireEvent>,
    final_powers: Seq<u8>,
) -> bool {
    origin.0 < network.wires.count() && !flagged(origin.0) ==> if origin_blocked(check_disabled, disabled, origin) {
        result == Err::<(), OrderedPropagationError>(OrderedPropagationError::DisabledWireCrossing(origin))
    } else {
        let start = powers[origin.0 as int];
        let next = target_power(network.wires, powers, direct, origin.0 as int);
        let first = first_transition(network, powers, direct, origin);
        &&& next == start ==> result == Ok::<(), OrderedPropagationError>(()) && events.len() == 0 && final_powers
            == powers
        &&& next != start && result is Ok ==> events.len() > 0 && events[0] == first
        &&& next != start && network.wires.ordered_targets_of(origin.0 as int).len() == 0 ==> result == Ok::<
            (),
            OrderedPropagationError,
        >(()) && events == seq![first]
    }
}

/// The failures an ordered propagation can report: an origin that is not
/// a wire of the network, an origin slot so high that its entry reads as a
/// boundary the table does not hold, a disabled wire reached while disabled
/// wires are checked, or the iteration limit; no other.
pub open spec fn propagation_error_allowed(
    network: &StaticNetwork,
    origin: NetworkWireId,
    check_disabled: bool,
    disabled: Seq<bool>,
    result: Result<(), OrderedPropagationError>,
) -> bool {
    match result {
        Ok(()) => true,
        Err(OrderedPropagationError::InvalidWire(w)) => w == origin && origin.0 >= network.wires.count(),
        Err(OrderedPropagationError::DisabledWireCrossing(w)) => check_disabled && w.0 < disabled.len()
            && disabled[w.0 as int],
        Err(OrderedPropagationError::IterationLimitExceeded { limit }) => limit == ORDERED_PROPAGATION_LIMIT,
        Err(OrderedPropagationError::InvalidBoundary(i)) => flagged(origin.0) && i == unflagged(origin.0) as usize
            && i >= network.wires.ordered_boundaries@.len(),
        Err(_) => false,
    }
}

/// Whether the predecessor buckets of every wire hold again the counts of
/// levels 1 to 15 and the masks they held before.
pub open spec fn buckets_restored(
    old_rows: Seq<[u8; 16]>,
    old_masks: Seq<u16>,
    rows: Seq<[u8; 16]>,
    masks: Seq<u16>,
) -> bool {
    &&& rows.len() == old_rows.len()
    &&& masks == old_masks
    &&& forall|w: int, p: int| 0 <= w < rows.len() && 1 <= p < 16 ==> #[trigger] rows[w]@[p] == old_rows[w]@[p]
}

/// Two masks with the same sixteen bits are equal.
proof fn lemma_mask_equal(a: u16, b: u16)
    requires
        forall|p: int| 0 <= p < 16 ==> #[trigger] bit_set(a, p) == bit_set(b, p),
    ensures
        a == b,
{
    assert(bit_set(a, 0) == bit_set(b, 0));
    assert(bit_set(a, 1) == bit_set(b, 1));
    assert(bit_set(a, 2) == bit_set(b, 2));
    assert(bit_set(a, 3) == bit_set(b, 3));
    assert(bit_set(a, 4) == bit_set(b, 4));
    assert(bit_set(a, 5) == bit_set(b, 5));
    assert(bit_set(a, 6) == bit_set(b, 6));
    assert(bit_set(a, 7) == bit_set(b, 7));
    assert(bit_set(a, 8) == bit_set(b, 8));
    assert(bit_set(a, 9) == bit_set(b, 9));
    assert(bit_set(a, 10) == bit_set(b, 10));
    assert(bit_set(a, 11) == bit_set(b, 11));
    assert(bit_set(a, 12) == bit_set(b, 12));
    assert(bit_set(a, 13) == bit_set(b, 13));
    assert(bit_set(a, 14) == bit_set(b, 14));
    assert(bit_set(a, 15) == bit_set(b, 15));
    assert(a == b) by (bit_vector)
        requires
            ((a >> 0u16) & 1u16 == 1u16) == ((b >> 0u16) & 1u16 == 1u16),
            ((a >> 1u16) & 1u16 == 1u16) == ((b >> 1u16) & 1u16 == 1u16),
            ((a >> 2u16) & 1u16 == 1u16) == ((b >> 2u16) & 1u16 == 1u16),
            ((a >> 3u16) & 1u16 == 1u16) == ((b >> 3u16) & 1u16 == 1u16),
            ((a >> 4u16) & 1u16 == 1u16) == ((b >> 4u16) & 1u16 == 1u16),
            ((a >> 5u16) & 1u16 == 1u16) == ((b >> 5u16) & 1u16 == 1u16),
            ((a >> 6u16) & 1u16 == 1u16) == ((b >> 6u16) & 1u16 == 1u16),
            ((a >> 7u16) & 1u16 == 1u16) == ((b >> 7u16) & 1u16 == 1u16),
            ((a >> 8u16) & 1u16 == 1u16) == ((b >> 8u16) & 1u16 == 1u16),
            ((a >> 9u16) & 1u16 == 1u16) == ((b >> 9u16) & 1u16 == 1u16),
            ((a >> 10u16) & 1u16 == 1u16) == ((b >> 10u16) & 1u16 == 1u16),
            ((a >> 11u16) & 1u16 == 1u16) == ((b >> 11u16) & 1u16 == 1u16),
            ((a >> 12u16) & 1u16 == 1u16) == ((b >> 12u16) & 1u16 == 1u16),
            ((a >> 13u16) & 1u16 == 1u16) == ((b >> 13u16) & 1u16 == 1u16),
            ((a >> 14u16) & 1u16 == 1u16) == ((b >> 14u16) & 1u16 == 1u16),
            ((a >> 15u16) & 1u16 == 1u16) == ((b >> 15u16) & 1u16 == 1u16),
    ;
}

/// Buckets that match the same powers agree on every level above zero and
/// on every mask.
proof fn lemma_buckets_determined(
    graph: DenseWireGraph,
    powers: Seq<u8>,
    r1: Seq<[u8; 16]>,
    m1: Seq<u16>,
    r2: Seq<[u8; 16]>,
    m2: Seq<u16>,
)
    requires
        buckets_match(graph, powers, r1, m1, graph.count()),
        buckets_match(graph, powers, r2, m2, graph.count()),
    ensures
        buckets_restored(r1, m1, r2, m2),
{
    let n = graph.count();
    assert forall|w: int, p: int| 0 <= w < r2.len() && 1 <= p < 16 implies #[trigger] r2[w]@[p] == r1[w]@[p] by {
        assert(r2[w]@[p] as nat == level_count(graph, powers, w, p, n));
        assert(r1[w]@[p] as nat == level_count(graph, powers, w, p, n));
    }
    assert forall|w: int| 0 <= w < n implies m2[w] == m1[w] by {
        assert(mask_matches(r1[w]@, m1[w]));
        assert(mask_matches(r2[w]@, m2[w]));
        assert forall|p: int| 0 <= p < 16 implies #[trigger] bit_set(m1[w], p) == bit_set(m2[w], p) by {
            if 1 <= p {
                assert(r2[w]@[p] as nat == level_count(graph, powers, w, p, n));
                assert(r1[w]@[p] as nat == level_count(graph, powers, w, p, n));
            }
        }
        lemma_mask_equal(m1[w], m2[w]);
    }
    assert(m2 =~= m1);
}

/// Whether every pending range of a stack lies inside a table of `len` entries.
spec fn frames_valid(frames: Seq<OrderedTargetFrame>, len: int) -> bool {
    forall|i: int| 0 <= i < frames.len() ==> #[trigger] frame_valid(frames[i], len)
}

/// Whether every wire change among `events` changes its wire's power, and
/// every boundary event names a boundary of `network`.
pub open spec fn events_valid(network: &StaticNetwork, events: Seq<OrderedWireEvent>) -> bool {
    forall|i: int|
        0 <= i < events.len() ==> match #[trigger] events[i] {
            OrderedWireEvent::Wire(change) => change.old_power != change.new_power,
            OrderedWireEvent::Boundary { target, .. } => target < network.wires.ordered_boundaries@.len(),
        }
}

/// Whether the fast-input node of a boundary is known and still enabled.
pub open spec fn boundary_fast_node(boundary: OrderedBoundaryTarget, enabled: Seq<bool>) -> bool {
    match boundary.fast_input_node {
        Some(node) => node.0 < enabled.len() && enabled[node.0 as int],
        None => false,
    }
}

impl NetworkRuntime {
    /// Marks every dependent of wire `wire` for recomputation.
    fn mark_dependents_dirty(&mut self, network: &StaticNetwork, wire: NetworkWireId)
        requires
            links_in_range(network.wires),
            network.wires.tables_in_bounds(),
            wire.0 < network.wires.count(),
            old(self).wire_inputs_dirty@.len() == network.wires.count(),
        ensures
            final(self).wire_inputs_dirty@.len() == network.wires.count(),
            forall|i: int|
                0 <= i < network.wires.count() ==> #[trigger] final(self).wire_inputs_dirty@[i] == (old(self).wire_inputs_dirty@[i] || occurrences(network.wires.dependents_of(wire.0 as int), i)
                    > 0),
            final(self).outputs == old(self).outputs,
            final(self).wire_powers == old(self).wire_powers,
            final(self).direct_wire_powers == old(self).direct_wire_powers,
            final(self).wire_predecessor_counts == old(self).wire_predecessor_counts,
            final(self).wire_predecessor_masks == old(self).wire_predecessor_masks,
            final(self).fast_inputs == old(self).fast_inputs,
            final(self).fast_input_enabled == old(self).fast_input_enabled,
            final(self).fast_input_emitted_epochs == old(self).fast_input_emitted_epochs,
            final(self).fast_input_dirty_epochs == old(self).fast_input_dirty_epochs,
            final(self).fast_input_epoch == old(self).fast_input_epoch,
            final(self).queue == old(self).queue,
            final(self).ordered_stack == old(self).ordered_stack,
    {
        let ghost graph = network.wires;
        let ghost count = graph.count();

        let targets = network.wires.dependents(wire);
        let mut k: usize = 0;
        while k < targets.len()
            invariant
                count == network.wires.count(),
                graph == network.wires,
                links_in_range(graph),
                wire.0 < count,
                k <= targets@.len(),
                targets@ == graph.dependents_of(wire.0 as int),
                self.wire_inputs_dirty@.len() == count,
                forall|i: int|
                    0 <= i < count ==> #[trigger] self.wire_inputs_dirty@[i] == (old(self).wire_inputs_dirty@[i]
                        || occurrences(targets@.subrange(0, k as int), i) > 0),
                self.outputs == old(self).outputs,
                self.wire_powers == old(self).wire_powers,
                self.direct_wire_powers == old(self).direct_wire_powers,
                self.wire_predecessor_counts == old(self).wire_predecessor_counts,
                self.wire_predecessor_masks == old(self).wire_predecessor_masks,
                self.fast_inputs == old(self).fast_inputs,
                self.fast_input_enabled == old(self).fast_input_enabled,
                self.fast_input_emitted_epochs == old(self).fast_input_emitted_epochs,
                self.fast_input_dirty_epochs == old(self).fast_input_dirty_epochs,
                self.fast_input_epoch == old(self).fast_input_epoch,
                self.queue == old(self).queue,
                self.ordered_stack == old(self).ordered_stack,
            decreases targets@.len() - k,
        {
            let target = targets[k];
            self.wire_inputs_dirty.set(target.index(), true);
            proof {
                assert forall|i: int| 0 <= i < count implies #[trigger] self.wire_inputs_dirty@[i] == (old(self).wire_inputs_dirty@[i] || occurrences(targets@.subrange(0, k + 1), i) > 0) by {
                    lemma_occurrences_prefix(targets@, k as int, i);
                }
            }
            k += 1;
        }
        proof {
            assert(targets@.subrange(0, targets@.len() as int) =~= targets@);
        }
    }

    /// Recomputes wire `wire` if it is marked: when its power changes, moves
    /// its contribution in its dependents' buckets, marks them, records the
    /// change in `events` and refreshes the fast inputs that read it.
    /// Returns whether the power changed.
    fn settle_wire(
        &mut self,
        network: &StaticNetwork,
        wire: NetworkWireId,
        events: &mut Vec<OrderedWireEvent>,
        Ghost(base): Ghost<Seq<u8>>,
    ) -> (changed: bool)
        requires
            network_ready(network),
            old(self).inv(network),
            wire.0 < network.wires.count(),
            chained(base, old(events)@),
            old(self).wire_powers@ == replay(base, old(events)@),
            events_valid(network, old(events)@),
        ensures
            final(self).inv(network),
            chained(base, final(events)@),
            final(self).wire_powers@ == replay(base, final(events)@),
            events_valid(network, final(events)@),
            changed ==> {
                &&& old(self).wire_inputs_dirty@[wire.0 as int]
                &&& final(events)@ == old(events)@.push(
                    OrderedWireEvent::Wire(
                        WirePowerTransition {
                            wire,
                            old_power: old(self).wire_powers@[wire.0 as int],
                            new_power: final(self).wire_powers@[wire.0 as int],
                        },
                    ),
                )
                &&& final(self).wire_powers@[wire.0 as int] == (if highest_level(
                    old(self).wire_predecessor_counts@[wire.0 as int]@,
                    15,
                ) > old(self).direct_wire_powers@[wire.0 as int] {
                    highest_level(old(self).wire_predecessor_counts@[wire.0 as int]@, 15)
                } else {
                    old(self).direct_wire_powers@[wire.0 as int] as int
                })
            },
            !changed ==> final(events)@ == old(events)@ && final(self).wire_powers@ == old(self).wire_powers@,
            changed == (old(self).wire_inputs_dirty@[wire.0 as int] && target_power(
                network.wires,
                old(self).wire_powers@,
                old(self).direct_wire_powers@,
                wire.0 as int,
            ) != old(self).wire_powers@[wire.0 as int]),
            changed ==> final(self).wire_powers@[wire.0 as int] == target_power(
                network.wires,
                old(self).wire_powers@,
                old(self).direct_wire_powers@,
                wire.0 as int,
            ),
            !old(self).wire_inputs_dirty@[wire.0 as int] ==> {
                &&& final(self).wire_inputs_dirty@ == old(self).wire_inputs_dirty@
                &&& final(self).fast_inputs@ == old(self).fast_inputs@
                &&& final(self).fast_input_dirty_epochs@ == old(self).fast_input_dirty_epochs@
            },
            old(self).wire_inputs_dirty@[wire.0 as int] && !changed ==> {
                &&& final(self).wire_inputs_dirty@ == old(self).wire_inputs_dirty@.update(wire.0 as int, false)
                &&& final(self).fast_inputs@ == old(self).fast_inputs@
                &&& final(self).fast_input_dirty_epochs@ == old(self).fast_input_dirty_epochs@
            },
            changed ==> {
                &&& final(self).wire_powers@ == old(self).wire_powers@.update(
                    wire.0 as int,
                    final(self).wire_powers@[wire.0 as int],
                )
                &&& final(self).wire_inputs_dirty@ == marked_dependents(
                    network.wires,
                    old(self).wire_inputs_dirty@.update(wire.0 as int, false),
                    wire.0 as int,
                )
                &&& final(self).fast_inputs@ == refreshed_inputs(
                    network,
                    old(self).fast_input_enabled@,
                    old(self).outputs@,
                    final(self).wire_powers@,
                    old(self).fast_inputs@,
                    wire.0 as int,
                )
                &&& final(self).fast_input_dirty_epochs@ == refreshed_epochs(
                    network,
                    old(self).fast_input_enabled@,
                    old(self).outputs@,
                    final(self).wire_powers@,
                    old(self).fast_inputs@,
                    old(self).fast_input_dirty_epochs@,
                    old(self).fast_input_epoch,
                    wire.0 as int,
                )
            },
            clean_settled(
                network.wires,
                old(self).wire_powers@,
                old(self).direct_wire_powers@,
                old(self).wire_inputs_dirty@,
            ) ==> clean_settled(
                network.wires,
                final(self).wire_powers@,
                final(self).direct_wire_powers@,
                final(self).wire_inputs_dirty@,
            ),
            !final(self).wire_inputs_dirty@[wire.0 as int] || (changed && occurrences(
                network.wires.dependents_of(wire.0 as int),
                wire.0 as int,
            ) > 0),
            final(self).outputs == old(self).outputs,
            final(self).direct_wire_powers == old(self).direct_wire_powers,
            final(self).fast_input_enabled == old(self).fast_input_enabled,
            final(self).fast_input_emitted_epochs == old(self).fast_input_emitted_epochs,
            final(self).fast_input_epoch == old(self).fast_input_epoch,
            final(self).queue == old(self).queue,
            final(self).ordered_stack == old(self).ordered_stack,
    {
        proof {
            lemma_network_ready(network);
        }
        let index = wire.index();
        if !self.wire_inputs_dirty[index] {
            return false;
        }
        let ghost graph = network.wires;
        let ghost p0 = self.wire_powers@;
        let ghost d0 = self.wire_inputs_dirty@;
        let ghost direct = self.direct_wire_powers@;
        proof {
            reveal(clean_settled);
            let row = self.wire_predecessor_counts@[index as int]@;
            assert forall|p: int| 1 <= p < 16 implies (#[trigger] row[p]) as nat == level_count(
                graph,
                p0,
                index as int,
                p,
                graph.count(),
            ) by {
                assert(self.wire_predecessor_counts@[index as int]@[p] == row[p]);
            }
            lemma_highest_is_top(graph, p0, row, index as int, 15);
        }
        self.wire_inputs_dirty.set(index, false);
        let old_power = self.wire_powers[index];
        let new_power = self.wire_target_power(network, wire);
        if old_power == new_power {
            proof {
                reveal(clean_settled);
                assert forall|w: int|
                    0 <= w < graph.count() && !self.wire_inputs_dirty@[w] && clean_settled(graph, p0, direct, d0) implies self.wire_powers@[w]
                    == #[trigger] target_power(graph, self.wire_powers@, self.direct_wire_powers@, w) by {
                    if w != index as int {
                        assert(!d0[w]);
                        assert(p0[w] == target_power(graph, p0, direct, w));
                    }
                }
            }
            return false;
        }
        let ghost prior = *events;
        self.wire_powers.set(index, new_power);
        proof {
            assert(self.wire_powers@.update(index as int, old_power) =~= old(self).wire_powers@);
        }
        self.move_contributions(network, wire, old_power, new_power);
        proof {
            lemma_links_in_range(network.wires);
        }
        self.mark_dependents_dirty(network, wire);
        events.push(
            OrderedWireEvent::Wire(WirePowerTransition { wire, old_power, new_power }),
        );
        proof {
            assert(events@.drop_last() =~= prior@);
            lemma_replay_len(base, prior@);
            assert forall|i: int| 0 <= i < events@.len() implies match #[trigger] events@[i] {
                OrderedWireEvent::Wire(change) => change.old_power != change.new_power,
                OrderedWireEvent::Boundary { target, .. } => target < network.wires.ordered_boundaries@.len(),
            } by {
                if i < prior@.len() {
                    assert(events@[i] == prior@[i]);
                }
            }
        }
        let ghost before_refresh = self.fast_inputs@;
        self.update_fast_wire_inputs(network, wire);
        proof {
            assert(self.wire_inputs_dirty@ =~= marked_dependents(network.wires, d0.update(index as int, false), index as int));
            assert(self.fast_inputs@ =~= refreshed_inputs(
                network,
                old(self).fast_input_enabled@,
                old(self).outputs@,
                self.wire_powers@,
                before_refresh,
                index as int,
            ));
            assert(self.fast_input_dirty_epochs@ =~= refreshed_epochs(
                network,
                old(self).fast_input_enabled@,
                old(self).outputs@,
                self.wire_powers@,
                before_refresh,
                old(self).fast_input_dirty_epochs@,
                old(self).fast_input_epoch,
                index as int,
            ));
        }
        proof {
            let v = index as int;
            reveal(clean_settled);
            assert(self.wire_powers@ == p0.update(v, new_power));
            assert forall|w: int|
                0 <= w < graph.count() && !self.wire_inputs_dirty@[w] && clean_settled(graph, p0, direct, d0) implies self.wire_powers@[w]
                == #[trigger] target_power(graph, self.wire_powers@, self.direct_wire_powers@, w) by {
                assert(occurrences(graph.dependents_of(v), w) == 0);
                lemma_target_unfed(graph, p0, direct, v, new_power, w);
                if w != v {
                    assert(!d0[w]);
                    assert(p0[w] == target_power(graph, p0, direct, w));
                }
            }
        }
        true
    }

    /// Reports boundary `index`: with the fast input of its node when that
    /// node is enabled, unless the node was already reported this epoch and
    /// its input has not changed since. Returns false for a missing boundary.
    fn emit_boundary(
        &mut self,
        network: &StaticNetwork,
        index: usize,
        events: &mut Vec<OrderedWireEvent>,
    ) -> (found: bool)
        requires
            old(self).inv(network),
            index < 0x8000_0000,
        ensures
            found == (index < network.wires.ordered_boundaries@.len()),
            final(self).inv(network),
            found ==> {
                let boundary = network.wires.ordered_boundaries@[index as int];
                if boundary_fast_node(boundary, old(self).fast_input_enabled@) {
                    let node = boundary.fast_input_node->Some_0.0 as int;
                    if old(self).fast_input_emitted_epochs@[node] == old(self).fast_input_epoch
                        && old(self).fast_input_dirty_epochs@[node] != old(self).fast_input_epoch {
                        &&& final(events)@ == old(events)@
                        &&& final(self).fast_input_emitted_epochs == old(self).fast_input_emitted_epochs
                        &&& final(self).fast_input_dirty_epochs == old(self).fast_input_dirty_epochs
                    } else {
                        &&& final(events)@ == old(events)@.push(
                            OrderedWireEvent::Boundary {
                                target: index as u32,
                                input: Some(old(self).fast_inputs@[node]),
                            },
                        )
                        &&& final(self).fast_input_emitted_epochs@ == old(self).fast_input_emitted_epochs@.update(node, old(self).fast_input_epoch)
                        &&& final(self).fast_input_dirty_epochs@ == old(self).fast_input_dirty_epochs@.update(node, 0)
                    }
                } else {
                    &&& final(events)@ == old(events)@.push(
                        OrderedWireEvent::Boundary { target: index as u32, input: None },
                    )
                    &&& final(self).fast_input_emitted_epochs == old(self).fast_input_emitted_epochs
                    &&& final(self).fast_input_dirty_epochs == old(self).fast_input_dirty_epochs
                }
            },
            !found ==> final(events)@ == old(events)@,
            final(self).outputs == old(self).outputs,
            final(self).wire_powers == old(self).wire_powers,
            final(self).direct_wire_powers == old(self).direct_wire_powers,
            final(self).wire_predecessor_counts == old(self).wire_predecessor_counts,
            final(self).wire_predecessor_masks == old(self).wire_predecessor_masks,
            final(self).fast_inputs == old(self).fast_inputs,
            final(self).fast_input_enabled == old(self).fast_input_enabled,
            final(self).fast_input_epoch == old(self).fast_input_epoch,
            final(self).wire_inputs_dirty == old(self).wire_inputs_dirty,
            final(self).queue == old(self).queue,
            final(self).ordered_stack == old(self).ordered_stack,
    {
        let boundary = match network.wires.ordered_boundary(index) {
            Some(boundary) => boundary,
            None => {
                return false;
            },
        };
        let fast_node = match boundary.fast_input_node {
            Some(node) => {
                if node.index() < self.fast_input_enabled.len() && self.fast_input_enabled[node.index()] {
                    Some(node)
                } else {
                    None
                }
            },
            None => None,
        };
        let input = match fast_node {
            Some(node) => {
                let slot = node.index();
                let input = self.fast_inputs[slot];
                if self.fast_input_emitted_epochs[slot] == self.fast_input_epoch
                    && self.fast_input_dirty_epochs[slot] != self.fast_input_epoch {
                    return true;
                }
                self.fast_input_emitted_epochs.set(slot, self.fast_input_epoch);
                self.fast_input_dirty_epochs.set(slot, 0);
                Some(input)
            },
            None => None,
        };
        events.push(OrderedWireEvent::Boundary { target: index as u32, input });
        true
    }

    /// The next entry of the ordered table to visit: the next one of the
    /// current range, else of the innermost pending range; none when every
    /// range is done.
    fn next_ordered_index(&mut self, frame: &mut OrderedTargetFrame, Ghost(len): Ghost<int>) -> (index: Option<u32>)
        requires
            frame_valid(*old(frame), len),
            frames_valid(old(self).ordered_stack@, len),
        ensures
            frame_valid(*final(frame), len),
            frames_valid(final(self).ordered_stack@, len),
            match index {
                Some(index) => index < len,
                None => true,
            },
            match pending_step(*old(frame), old(self).ordered_stack@) {
                Some((next, rest, stack)) => index == Some(next) && *final(frame) == rest && final(self).ordered_stack@ == stack,
                None => index is None && final(self).ordered_stack@.len() == 0 && final(frame).next == final(frame).end,
            },
            final(self).outputs == old(self).outputs,
            final(self).wire_powers == old(self).wire_powers,
            final(self).direct_wire_powers == old(self).direct_wire_powers,
            final(self).wire_predecessor_counts == old(self).wire_predecessor_counts,
            final(self).wire_predecessor_masks == old(self).wire_predecessor_masks,
            final(self).fast_inputs == old(self).fast_inputs,
            final(self).fast_input_enabled == old(self).fast_input_enabled,
            final(self).fast_input_emitted_epochs == old(self).fast_input_emitted_epochs,
            final(self).fast_input_dirty_epochs == old(self).fast_input_dirty_epochs,
            final(self).fast_input_epoch == old(self).fast_input_epoch,
            final(self).wire_inputs_dirty == old(self).wire_inputs_dirty,
            final(self).queue == old(self).queue,
    {
        loop
            invariant
                frame_valid(*frame, len),
                frames_valid(self.ordered_stack@, len),
                pending_step(*frame, self.ordered_stack@) == pending_step(*old(frame), old(self).ordered_stack@),
                self.outputs == old(self).outputs,
                self.wire_powers == old(self).wire_powers,
                self.direct_wire_powers == old(self).direct_wire_powers,
                self.wire_predecessor_counts == old(self).wire_predecessor_counts,
                self.wire_predecessor_masks == old(self).wire_predecessor_masks,
                self.fast_inputs == old(self).fast_inputs,
                self.fast_input_enabled == old(self).fast_input_enabled,
                self.fast_input_emitted_epochs == old(self).fast_input_emitted_epochs,
                self.fast_input_dirty_epochs == old(self).fast_input_dirty_epochs,
                self.fast_input_epoch == old(self).fast_input_epoch,
                self.wire_inputs_dirty == old(self).wire_inputs_dirty,
                self.queue == old(self).queue,
            decreases self.ordered_stack@.len(),
        {
            if frame.next != frame.end {
                let index = frame.next;
                frame.next = frame.next + 1;
                return Some(index);
            }
            let ghost stack = self.ordered_stack@;
            match self.ordered_stack.pop() {
                Some(parent) => {
                    proof {
                        assert(frame_valid(stack[stack.len() - 1], len));
                        assert(self.ordered_stack@ =~= stack.drop_last());
                        assert forall|i: int| 0 <= i < self.ordered_stack@.len() implies #[trigger] frame_valid(
                            self.ordered_stack@[i],
                            len,
                        ) by {
                            assert(self.ordered_stack@[i] == stack[i]);
                        }
                    }
                    *frame = parent;
                },
                None => {
                    return None;
                },
            }
        }
    }
}

/// The walk state that a runtime holds, with the current range, the next
/// entry and the events recorded so far.
spec fn walk_now(
    rt: &NetworkRuntime,
    frame: OrderedTargetFrame,
    target: OrderedWireTarget,
    events: Seq<OrderedWireEvent>,
) -> OrderedWalk {
    OrderedWalk {
        powers: rt.wire_powers@,
        dirty: rt.wire_inputs_dirty@,
        inputs: rt.fast_inputs@,
        emitted: rt.fast_input_emitted_epochs@,
        refreshed: rt.fast_input_dirty_epochs@,
        frame,
        stack: rt.ordered_stack@,
        target,
        events,
    }
}

impl NetworkRuntime {
    /// The fixed part of an ordered walk that starts on this runtime: its
    /// direct wire powers, node outputs and enabled fast inputs, the epoch
    /// after this one (one when the counter wraps), and the refused wires.
    pub closed spec fn walk_setting(&self, check_disabled: bool, disabled: Seq<bool>) -> WalkSetting {
        WalkSetting {
            direct: self.direct_wire_powers@,
            outputs: self.outputs@,
            enabled: self.fast_input_enabled@,
            epoch: if self.fast_input_epoch == u32::MAX {
                1
            } else {
                (self.fast_input_epoch + 1) as u32
            },
            check_disabled,
            disabled,
        }
    }

    /// The first state of an ordered walk from `origin` on this runtime: its
    /// powers and fast inputs, its marks with the origin marked, its epochs
    /// (all cleared when the epoch counter wraps), no range, the origin as
    /// the next entry and no events.
    pub closed spec fn walk_start(&self, origin: NetworkWireId) -> OrderedWalk {
        let wraps = self.fast_input_epoch == u32::MAX;
        OrderedWalk {
            powers: self.wire_powers@,
            dirty: self.wire_inputs_dirty@.update(origin.0 as int, true),
            inputs: self.fast_inputs@,
            emitted: if wraps {
                Seq::new(self.fast_input_emitted_epochs@.len(), |i: int| 0u32)
            } else {
                self.fast_input_emitted_epochs@
            },
            refreshed: if wraps {
                Seq::new(self.fast_input_dirty_epochs@.len(), |i: int| 0u32)
            } else {
                self.fast_input_dirty_epochs@
            },
            frame: OrderedTargetFrame { next: 0, end: 0 },
            stack: Seq::empty(),
            target: OrderedWireTarget(origin.0),
            events: Seq::empty(),
        }
    }
}

impl NetworkRuntime {
    /// Propagates a change at wire `origin` in the precompiled order: each
    /// marked wire that is reached recomputes its power from its buckets and
    /// direct power, and a changed wire visits its ordered update list, wires
    /// and boundary blocks, depth first, as `walk` describes step by step.
    /// On any failure every wire change is undone and an error is returned.
    #[verifier::spinoff_prover]
    #[verifier::rlimit(100)]
    fn propagate_ordered_inner(
        &mut self,
        network: &StaticNetwork,
        origin: NetworkWireId,
        check_disabled: bool,
        disabled_wires: &[bool],
        events: &mut Vec<OrderedWireEvent>,
    ) -> (result: Result<(), OrderedPropagationError>)
        requires
            network_ready(network),
            old(self).inv(network),
        ensures
            final(self).inv(network),
            events_valid(network, final(events)@),
            match result {
                Ok(()) => {
                    &&& chained(old(self).powers(), final(events)@)
                    &&& final(self).powers() == replay(old(self).powers(), final(events)@)
                },
                Err(_) => final(self).powers() == old(self).powers(),
            },
            origin.0 >= network.wires.count() ==> result == Err::<(), OrderedPropagationError>(
                OrderedPropagationError::InvalidWire(origin),
            ) && final(events)@.len() == 0,
            propagation_error_allowed(network, origin, check_disabled, disabled_wires@, result),
            result is Err ==> buckets_restored(old(self).bucket_rows(), old(self).bucket_masks(), final(self).bucket_rows(), final(self).bucket_masks()),
            origin.0 < network.wires.count() && !flagged(origin.0) && origin_blocked(check_disabled, disabled_wires@, origin)
                ==> result == Err::<(), OrderedPropagationError>(OrderedPropagationError::DisabledWireCrossing(origin)),
            origin.0 < network.wires.count() && !flagged(origin.0) && !origin_blocked(check_disabled, disabled_wires@, origin)
                ==> {
                let start = old(self).powers()[origin.0 as int];
                let next = target_power(network.wires, old(self).powers(), old(self).direct_levels(), origin.0 as int);
                let first = first_transition(network, old(self).powers(), old(self).direct_levels(), origin);
                &&& next == start ==> result == Ok::<(), OrderedPropagationError>(()) && final(events)@.len() == 0
                    && final(self).powers() == old(self).powers()
                &&& next != start && result is Ok ==> final(events)@.len() > 0 && final(events)@[0] == first
                &&& next != start && network.wires.ordered_targets_of(origin.0 as int).len() == 0 ==> result == Ok::<
                    (),
                    OrderedPropagationError,
                >(()) && final(events)@ == seq![first]
            },
            result is Ok && clean_settled(
                network.wires,
                old(self).powers(),
                old(self).direct_levels(),
                old(self).dirty_wires().update(origin.0 as int, true),
            ) ==> clean_settled(network.wires, final(self).powers(), final(self).direct_levels(), final(self).dirty_wires()),
            origin.0 < network.wires.count() ==> match walk(
                network,
                old(self).walk_setting(check_disabled, disabled_wires@),
                old(self).walk_start(origin),
                ORDERED_PROPAGATION_LIMIT as nat,
            ) {
                Ok(w) => result == Ok::<(), OrderedPropagationError>(()) && final(events)@ == w.events
                    && final(self).powers() == w.powers,
                Err(error) => result == Err::<(), OrderedPropagationError>(error),
            },
            final(self).output_levels() == old(self).output_levels(),
            final(self).direct_levels() == old(self).direct_levels(),
            final(self).fast_enabled() == old(self).fast_enabled(),
    {
        proof {
            lemma_network_ready(network);
        }
        let ghost count = network.wires.count();
        let ghost table = network.wires.ordered_targets@.len() as int;
        proof {
            lemma_csr_valid_in_bounds(network.wires.ordered_target_offsets@, count, table);
        }
        events.clear();
        self.ordered_stack.clear();
        self.start_epoch();
        let valid_origin = match self.wire_power(origin) {
            Some(_) => match network.wire(origin) {
                Some(_) => true,
                None => false,
            },
            None => false,
        };
        if !valid_origin {
            return Err(OrderedPropagationError::InvalidWire(origin));
        }
        let ghost base = self.wire_powers@;
        self.wire_inputs_dirty.set(origin.index(), true);
        let ghost direct = self.direct_wire_powers@;
        let ghost first = first_transition(network, base, direct, origin);
        let ghost start_power = base[origin.0 as int];
        let ghost next_power = target_power(network.wires, base, direct, origin.0 as int);
        let ghost blocked = origin_blocked(check_disabled, disabled_wires@, origin);
        let ghost entry_clean = clean_settled(network.wires, base, direct, self.wire_inputs_dirty@);
        proof {
            assert(self.wire_inputs_dirty@ == old(self).wire_inputs_dirty@.update(origin.0 as int, true));
        }
        let ghost one_step = !flagged(origin.0) && !blocked && (next_power == start_power
            || network.wires.ordered_targets_of(origin.0 as int).len() == 0);
        let mut target = OrderedWireTarget::wire(origin);
        let mut frame = OrderedTargetFrame { next: 0, end: 0 };
        let mut iterations: usize = 0;
        let ghost c = old(self).walk_setting(check_disabled, disabled_wires@);
        let ghost outcome = walk(network, c, old(self).walk_start(origin), ORDERED_PROPAGATION_LIMIT as nat);
        proof {
            assert(events@ =~= Seq::<OrderedWireEvent>::empty());
            assert(replay(base, events@) == base);
            assert(self.ordered_stack@ =~= Seq::<OrderedTargetFrame>::empty());
            assert(self.fast_input_emitted_epochs@ =~= old(self).walk_start(origin).emitted);
            assert(self.fast_input_dirty_epochs@ =~= old(self).walk_start(origin).refreshed);
            assert(walk_now(self, frame, target, events@) == old(self).walk_start(origin));
        }
        loop
            invariant
                network_ready(network),
                network.wires.tables_in_bounds(),
                count == network.wires.count(),
                table == network.wires.ordered_targets@.len(),
                self.inv(network),
                base == old(self).wire_powers@,
                base.len() == count,
                forall|i: int| 0 <= i < count ==> #[trigger] base[i] <= 15,
                origin.0 < count,
                chained(base, events@),
                self.wire_powers@ == replay(base, events@),
                events_valid(network, events@),
                iterations <= ORDERED_PROPAGATION_LIMIT,
                frame_valid(frame, table),
                frames_valid(self.ordered_stack@, table),
                !flagged(target.0) ==> target.0 < count,
                flagged(target.0) ==> unflagged(target.0) < network.wires.ordered_boundaries@.len() || target.0
                    == origin.0,
                old(self).inv(network),
                csr_valid(network.wires.ordered_target_offsets@, count, table),
                network.wires.ordered_entries_valid(),
                csr_ranges_in_bounds(network.wires.ordered_target_offsets@, table),
                self.outputs == old(self).outputs,
                self.direct_wire_powers == old(self).direct_wire_powers,
                self.fast_input_enabled == old(self).fast_input_enabled,
                direct == self.direct_wire_powers@,
                first == first_transition(network, base, direct, origin),
                start_power == base[origin.0 as int],
                next_power == target_power(network.wires, base, direct, origin.0 as int),
                blocked == origin_blocked(check_disabled, disabled_wires@, origin),
                one_step == (!flagged(origin.0) && !blocked && (next_power == start_power
                    || network.wires.ordered_targets_of(origin.0 as int).len() == 0)),
                entry_clean == clean_settled(
                    network.wires,
                    old(self).powers(),
                    old(self).direct_levels(),
                    old(self).dirty_wires().update(origin.0 as int, true),
                ),
                entry_clean ==> clean_settled(
                    network.wires,
                    self.wire_powers@,
                    self.direct_wire_powers@,
                    self.wire_inputs_dirty@,
                ),
                iterations == 0 ==> {
                    &&& target.0 == origin.0
                    &&& frame.next == frame.end
                    &&& self.ordered_stack@.len() == 0
                    &&& events@.len() == 0
                    &&& self.wire_powers@ == base
                    &&& self.wire_inputs_dirty@[origin.0 as int]
                },
                events@.len() == 0 ==> iterations == 0,
                !flagged(origin.0) && events@.len() > 0 ==> events@[0] == first,
                one_step ==> iterations == 0,
                blocked && !flagged(origin.0) ==> iterations == 0,
                c == old(self).walk_setting(check_disabled, disabled_wires@),
                c.direct == self.direct_wire_powers@,
                c.outputs == self.outputs@,
                c.enabled == self.fast_input_enabled@,
                c.epoch == self.fast_input_epoch,
                c.check_disabled == check_disabled,
                c.disabled == disabled_wires@,
                outcome == walk(network, c, old(self).walk_start(origin), ORDERED_PROPAGATION_LIMIT as nat),
                walk(network, c, walk_now(self, frame, target, events@), (ORDERED_PROPAGATION_LIMIT - iterations) as nat)
                    == outcome,
            decreases ORDERED_PROPAGATION_LIMIT - iterations,
        {
            let ghost cur = walk_now(self, frame, target, events@);
            let ghost fuel = (ORDERED_PROPAGATION_LIMIT - iterations) as nat;
            iterations += 1;
            if iterations > ORDERED_PROPAGATION_LIMIT {
                self.rollback_ordered(network, events, Ghost(base));
                proof {
                    lemma_buckets_determined(
                        network.wires,
                        base,
                        old(self).wire_predecessor_counts@,
                        old(self).wire_predecessor_masks@,
                        self.wire_predecessor_counts@,
                        self.wire_predecessor_masks@,
                    );
                }
                return Err(
                    OrderedPropagationError::IterationLimitExceeded { limit: ORDERED_PROPAGATION_LIMIT },
                );
            }
            match target.wire_id() {
                Some(wire) => {
                    if check_disabled && wire.index() < disabled_wires.len()
                        && disabled_wires[wire.index()] {
                        self.rollback_ordered(network, events, Ghost(base));
                        proof {
                            lemma_buckets_determined(
                                network.wires,
                                base,
                                old(self).wire_predecessor_counts@,
                                old(self).wire_predecessor_masks@,
                                self.wire_predecessor_counts@,
                                self.wire_predecessor_masks@,
                            );
                        }
                        proof {
                            assert(visit(network, c, cur) == Err::<OrderedWalk, OrderedPropagationError>(
                                OrderedPropagationError::DisabledWireCrossing(wire),
                            )) by {
                                reveal(visit);
                            }
                            assert(walk_step(network, c, cur) == WalkStep::Done(
                                Err::<OrderedWalk, OrderedPropagationError>(OrderedPropagationError::DisabledWireCrossing(wire)),
                            )) by {
                                reveal(walk_step);
                            }
                        }
                        return Err(OrderedPropagationError::DisabledWireCrossing(wire));
                    }
                    if wire.index() >= self.wire_inputs_dirty.len() {
                        self.rollback_ordered(network, events, Ghost(base));
                        proof {
                            lemma_buckets_determined(
                                network.wires,
                                base,
                                old(self).wire_predecessor_counts@,
                                old(self).wire_predecessor_masks@,
                                self.wire_predecessor_counts@,
                                self.wire_predecessor_masks@,
                            );
                        }
                        return Err(OrderedPropagationError::InvalidWire(wire));
                    }
                    let changed = self.settle_wire(network, wire, events, Ghost(base));
                    if changed {
                        match network.wires.ordered_target_range(wire) {
                            Some((start, end)) => {
                                if start < end {
                                    if frame.next != frame.end {
                                        let ghost stack = self.ordered_stack@;
                                        self.ordered_stack.push(frame);
                                        proof {
                                            assert forall|i: int| 0 <= i < self.ordered_stack@.len() implies #[trigger] frame_valid(
                                                self.ordered_stack@[i],
                                                table,
                                            ) by {
                                                if i < stack.len() {
                                                    assert(self.ordered_stack@[i] == stack[i]);
                                                }
                                            }
                                        }
                                    }
                                    frame = OrderedTargetFrame { next: start, end };
                                }
                            },
                            None => {
                                self.rollback_ordered(network, events, Ghost(base));
                                proof {
                                    lemma_buckets_determined(
                                        network.wires,
                                        base,
                                        old(self).wire_predecessor_counts@,
                                        old(self).wire_predecessor_masks@,
                                        self.wire_predecessor_counts@,
                                        self.wire_predecessor_masks@,
                                    );
                                }
                                return Err(OrderedPropagationError::InvalidWire(wire));
                            },
                        }
                    }
                    proof {
                        assert(visit(network, c, cur) == Ok::<OrderedWalk, OrderedPropagationError>(
                            walk_now(self, frame, target, events@),
                        )) by {
                            reveal(visit);
                            assert(self.ordered_stack@ == cur.stack.push(cur.frame) || self.ordered_stack@ == cur.stack);
                        }
                    }
                },
                None => {
                    let index = target.boundary_index().unwrap();
                    let ghost prior = events@;
                    let found = self.emit_boundary(network, index, events);
                    proof {
                        if events@.len() > prior.len() {
                            assert(events@.drop_last() =~= prior);
                            assert forall|i: int| 0 <= i < events@.len() implies match #[trigger] events@[i] {
                                OrderedWireEvent::Wire(change) => change.old_power != change.new_power,
                                OrderedWireEvent::Boundary { target, .. } => target < network.wires.ordered_boundaries@.len(),
                            } by {
                                if i < prior.len() {
                                    assert(events@[i] == prior[i]);
                                }
                            }
                        }
                    }
                    if !found {
                        self.rollback_ordered(network, events, Ghost(base));
                        proof {
                            lemma_buckets_determined(
                                network.wires,
                                base,
                                old(self).wire_predecessor_counts@,
                                old(self).wire_predecessor_masks@,
                                self.wire_predecessor_counts@,
                                self.wire_predecessor_masks@,
                            );
                        }
                        proof {
                            assert(visit(network, c, cur) == Err::<OrderedWalk, OrderedPropagationError>(
                                OrderedPropagationError::InvalidBoundary(index),
                            )) by {
                                reveal(visit);
                            }
                            assert(walk_step(network, c, cur) == WalkStep::Done(
                                Err::<OrderedWalk, OrderedPropagationError>(OrderedPropagationError::InvalidBoundary(index)),
                            )) by {
                                reveal(walk_step);
                            }
                        }
                        return Err(OrderedPropagationError::InvalidBoundary(index));
                    }
                    proof {
                        assert(visit(network, c, cur) == Ok::<OrderedWalk, OrderedPropagationError>(
                            walk_now(self, frame, target, events@),
                        )) by {
                            reveal(visit);
                        }
                    }
                },
            }
            let ghost visited = walk_now(self, frame, target, events@);
            match self.next_ordered_index(&mut frame, Ghost(table)) {
                Some(index) => match network.wires.ordered_target(index) {
                    Some(next) => {
                        target = next;
                        proof {
                            assert(walk_step(network, c, cur) == WalkStep::Next(walk_now(self, frame, target, events@))) by {
                                reveal(walk_step);
                            }
                        }
                    },
                    None => {
                        self.rollback_ordered(network, events, Ghost(base));
                        proof {
                            lemma_buckets_determined(
                                network.wires,
                                base,
                                old(self).wire_predecessor_counts@,
                                old(self).wire_predecessor_masks@,
                                self.wire_predecessor_counts@,
                                self.wire_predecessor_masks@,
                            );
                        }
                        return Err(OrderedPropagationError::InvalidOrderedTarget(index));
                    },
                },
                None => {
                    proof {
                        assert(walk_step(network, c, cur) == WalkStep::Done(
                            Ok::<OrderedWalk, OrderedPropagationError>(visited),
                        )) by {
                            reveal(walk_step);
                        }
                    }
                    return Ok(());
                },
            }
        }
    }
}

/// Whether `ids` names wire `w`.
pub open spec fn lists_wire(ids: Seq<NetworkWireId>, w: int) -> bool {
    exists|k: int| 0 <= k < ids.len() && (#[trigger] ids[k]).0 == w
}

/// Whether `ids` names node `i`.
pub open spec fn lists_node(ids: Seq<NetworkNodeId>, i: int) -> bool {
    exists|k: int| 0 <= k < ids.len() && (#[trigger] ids[k]).0 == i
}

proof fn lemma_lists_wire_prefix(ids: Seq<NetworkWireId>, k: int, w: int)
    requires
        0 <= k < ids.len(),
    ensures
        lists_wire(ids.subrange(0, k + 1), w) == (lists_wire(ids.subrange(0, k), w) || ids[k].0 == w),
{
    let longer = ids.subrange(0, k + 1);
    let shorter = ids.subrange(0, k);
    if lists_wire(longer, w) {
        let j = choose|j: int| 0 <= j < longer.len() && (#[trigger] longer[j]).0 == w;
        if j < k {
            assert(shorter[j] == longer[j]);
        }
    }
    if lists_wire(shorter, w) {
        let j = choose|j: int| 0 <= j < shorter.len() && (#[trigger] shorter[j]).0 == w;
        assert(longer[j] == shorter[j]);
    }
    if ids[k].0 == w {
        assert(longer[k] == ids[k]);
    }
}

proof fn lemma_lists_node_prefix(ids: Seq<NetworkNodeId>, k: int, i: int)
    requires
        0 <= k < ids.len(),
    ensures
        lists_node(ids.subrange(0, k + 1), i) == (lists_node(ids.subrange(0, k), i) || ids[k].0 == i),
{
    let longer = ids.subrange(0, k + 1);
    let shorter = ids.subrange(0, k);
    if lists_node(longer, i) {
        let j = choose|j: int| 0 <= j < longer.len() && (#[trigger] longer[j]).0 == i;
        if j < k {
            assert(shorter[j] == longer[j]);
        }
    }
    if lists_node(shorter, i) {
        let j = choose|j: int| 0 <= j < shorter.len() && (#[trigger] shorter[j]).0 == i;
        assert(longer[j] == shorter[j]);
    }
    if ids[k].0 == i {
        assert(longer[k] == ids[k]);
    }
}

/// A direct fast target of any node is a node of the network.
proof fn lemma_csr_slice_element(network: &StaticNetwork, index: int, k: int)
    requires
        csr_ranges_in_bounds(
            network.direct_fast_target_offsets@,
            network.direct_fast_targets@.len() as int,
        ),
        network.fast_targets_in_range(),
        0 <= k < network.fast_targets_of(index).len(),
    ensures
        network.fast_targets_of(index)[k].0 < network.node_total(),
{
    let offsets = network.direct_fast_target_offsets@;
    assert(0 <= index && index + 1 < offsets.len());
    assert(offsets[index] <= offsets[index + 1] <= network.direct_fast_targets@.len());
    assert(network.fast_targets_of(index)[k] == network.direct_fast_targets@[offsets[index] + k]);
}

/// The wires that a source node or conductor at `pos` powers directly.
pub open spec fn anchored_wires(network: &StaticNetwork, pos: BlockPos) -> Seq<NetworkWireId> {
    if network.wires.source_anchors.has(pos) {
        network.wires.source_anchors.at(pos)@
    } else {
        Seq::empty()
    }
}

/// Whether every anchored wire of the network is one of its wires.
pub open spec fn anchors_in_range(network: &StaticNetwork) -> bool {
    forall|pos: BlockPos, k: int|
        0 <= k < anchored_wires(network, pos).len() ==> (#[trigger] anchored_wires(network, pos)[k]).0
            < network.wires.count()
}

/// The wire power changes that lead from the recorded initial powers to
/// `powers`, in slot order, over the first `upto` slots.
pub open spec fn initial_changes(network: &StaticNetwork, powers: Seq<u8>, upto: int) -> Seq<WirePowerTransition>
    decreases upto,
{
    if upto <= 0 {
        Seq::empty()
    } else {
        let earlier = initial_changes(network, powers, upto - 1);
        let id = NetworkWireId((upto - 1) as u32);
        let i = id.0 as int;
        if i < network.wires.positions@.len() && i < network.wires.states@.len() && i
            < network.wires.initial_power@.len() && i < powers.len()
            && network.wires.initial_power@[i] != powers[i] {
            earlier.push(
                WirePowerTransition {
                    wire: id,
                    old_power: network.wires.initial_power@[i],
                    new_power: powers[i],
                },
            )
        } else {
            earlier
        }
    }
}

impl NetworkRuntime {
    /// The wire power changes from the recorded initial powers to the
    /// current ones, in slot order.
    pub fn initial_wire_transitions(&self, network: &StaticNetwork) -> (changes: Vec<WirePowerTransition>)
        ensures
            changes@ == initial_changes(network, self.powers(), network.wires.count()),
    {
        let count = network.wire_count();
        let mut changes: Vec<WirePowerTransition> = Vec::new();
        let mut index: usize = 0;
        while index < count
            invariant
                count == network.wires.count(),
                index <= count,
                changes@ == initial_changes(network, self.powers(), index as int),
            decreases count - index,
        {
            let wire = NetworkWireId(index as u32);
            match network.wire(wire) {
                Some(initial) => match self.wire_power(wire) {
                    Some(new_power) => {
                        if initial.initial_power != new_power {
                            changes.push(
                                WirePowerTransition { wire, old_power: initial.initial_power, new_power },
                            );
                        }
                    },
                    None => {},
                },
                None => {},
            }
            index += 1;
        }
        changes
    }

    /// Sets the output of node `source`, capped at 15. When it changes, the
    /// direct power of every wire anchored at the node's block is rescanned
    /// and the fast input of every node it feeds directly is recomputed; wire
    /// powers wait for a propagation. None when there is no such node.
    pub fn update_source_deferred(&mut self, network: &StaticNetwork, source: NetworkNodeId, new_output: u8) -> (result: Option<()>)
        requires
            network_ready(network),
            anchors_in_range(network),
            old(self).inv(network),
        ensures
            final(self).inv(network),
            result is None <==> source.0 >= network.node_total(),
            result is None ==> final(self).output_levels() == old(self).output_levels(),
            result is Some ==> final(self).output_levels() == old(self).output_levels().update(
                source.0 as int,
                if new_output > 15 {
                    15u8
                } else {
                    new_output
                },
            ),
            forall|w: int|
                0 <= w < network.wires.count() ==> #[trigger] final(self).direct_levels()[w] == if result
                    is Some && lists_wire(anchored_wires(network, network.nodes@[source.0 as int].pos), w)
                    && final(self).output_levels() != old(self).output_levels() {
                    source_max(network.wires.sources_of(w), final(self).output_levels())
                } else {
                    old(self).direct_levels()[w]
                },
            forall|i: int|
                0 <= i < network.node_total() ==> #[trigger] final(self).fast_input_levels()[i] == if result
                    is Some && lists_node(network.fast_targets_of(source.0 as int), i)
                    && final(self).output_levels() != old(self).output_levels() {
                    node_input(network, i, final(self).output_levels(), final(self).powers())
                } else {
                    old(self).fast_input_levels()[i]
                },
            final(self).powers() == old(self).powers(),
            final(self).bucket_rows() == old(self).bucket_rows(),
            final(self).bucket_masks() == old(self).bucket_masks(),
            final(self).fast_enabled() == old(self).fast_enabled(),
            final(self).dirty_wires() == old(self).dirty_wires(),
    {
        proof {
            lemma_network_ready_tables(network);
        }
        let index = source.index();
        if index >= self.outputs.len() {
            return None;
        }
        let old_output = self.outputs[index];
        let capped = if new_output > 15 { 15 } else { new_output };
        if old_output == capped {
            proof {
                assert(self.outputs@.update(index as int, capped) =~= self.outputs@);
            }
            return Some(());
        }
        self.outputs.set(index, capped);
        proof {
            assert(self.outputs@ != old(self).outputs@) by {
                assert(self.outputs@[index as int] != old(self).outputs@[index as int]);
            }
        }
        self.rescan_anchored(network, network.nodes[index].pos);
        self.refresh_direct_fast_targets(network, source);
        Some(())
    }

    /// Rescans the direct power of every wire anchored at `pos`.
    fn rescan_anchored(&mut self, network: &StaticNetwork, pos: BlockPos)
        requires
            anchors_in_range(network),
            network.wires.tables_in_bounds(),
            old(self).direct_wire_powers@.len() == network.wires.count(),
            forall|i: int| 0 <= i < old(self).outputs@.len() ==> #[trigger] old(self).outputs@[i] <= 15,
            forall|w: int| 0 <= w < network.wires.count() ==> #[trigger] old(self).direct_wire_powers@[w] <= 15,
        ensures
            final(self).direct_wire_powers@.len() == network.wires.count(),
            forall|w: int|
                0 <= w < network.wires.count() ==> #[trigger] final(self).direct_wire_powers@[w] == if lists_wire(
                    anchored_wires(network, pos),
                    w,
                ) {
                    source_max(network.wires.sources_of(w), final(self).outputs@)
                } else {
                    old(self).direct_wire_powers@[w]
                },
            forall|w: int| 0 <= w < network.wires.count() ==> #[trigger] final(self).direct_wire_powers@[w] <= 15,
            final(self).outputs == old(self).outputs,
            final(self).wire_powers == old(self).wire_powers,
            final(self).wire_predecessor_counts == old(self).wire_predecessor_counts,
            final(self).wire_predecessor_masks == old(self).wire_predecessor_masks,
            final(self).fast_inputs == old(self).fast_inputs,
            final(self).fast_input_enabled == old(self).fast_input_enabled,
            final(self).fast_input_emitted_epochs == old(self).fast_input_emitted_epochs,
            final(self).fast_input_dirty_epochs == old(self).fast_input_dirty_epochs,
            final(self).fast_input_epoch == old(self).fast_input_epoch,
            final(self).wire_inputs_dirty == old(self).wire_inputs_dirty,
            final(self).queue == old(self).queue,
            final(self).ordered_stack == old(self).ordered_stack,
    {
        let anchors = network.wires.source_wires(pos);
        let ghost n = network.wires.count();
        let mut k: usize = 0;
        while k < anchors.len()
            invariant
                anchors_in_range(network),
                network.wires.tables_in_bounds(),
                n == network.wires.count(),
                anchors@ == anchored_wires(network, pos),
                k <= anchors@.len(),
                self.direct_wire_powers@.len() == n,
                forall|i: int| 0 <= i < self.outputs@.len() ==> #[trigger] self.outputs@[i] <= 15,
                forall|w: int|
                    0 <= w < n ==> #[trigger] self.direct_wire_powers@[w] == if lists_wire(
                        anchors@.subrange(0, k as int),
                        w,
                    ) {
                        source_max(network.wires.sources_of(w), self.outputs@)
                    } else {
                        old(self).direct_wire_powers@[w]
                    },
                forall|w: int| 0 <= w < n ==> #[trigger] self.direct_wire_powers@[w] <= 15,
                self.outputs == old(self).outputs,
                self.wire_powers == old(self).wire_powers,
                self.wire_predecessor_counts == old(self).wire_predecessor_counts,
                self.wire_predecessor_masks == old(self).wire_predecessor_masks,
                self.fast_inputs == old(self).fast_inputs,
                self.fast_input_enabled == old(self).fast_input_enabled,
                self.fast_input_emitted_epochs == old(self).fast_input_emitted_epochs,
                self.fast_input_dirty_epochs == old(self).fast_input_dirty_epochs,
                self.fast_input_epoch == old(self).fast_input_epoch,
                self.wire_inputs_dirty == old(self).wire_inputs_dirty,
                self.queue == old(self).queue,
                self.ordered_stack == old(self).ordered_stack,
            decreases anchors@.len() - k,
        {
            let wire = anchors[k];
            let power = self.scan_direct_wire_power(network, wire);
            self.direct_wire_powers.set(wire.index(), power);
            proof {
                assert forall|w: int| 0 <= w < n implies #[trigger] lists_wire(anchors@.subrange(0, k + 1), w)
                    == (lists_wire(anchors@.subrange(0, k as int), w) || anchors@[k as int].0 == w) by {
                    lemma_lists_wire_prefix(anchors@, k as int, w);
                }
            }
            k += 1;
        }
        proof {
            assert(anchors@.subrange(0, anchors@.len() as int) =~= anchors@);
        }
    }

    /// Recomputes the fast input of every node that node `source` feeds directly.
    fn refresh_direct_fast_targets(&mut self, network: &StaticNetwork, source: NetworkNodeId)
        requires
            network.fast_targets_in_range(),
            csr_ranges_in_bounds(network.input_offsets@, network.input_ports@.len() as int),
            csr_ranges_in_bounds(
                network.direct_fast_target_offsets@,
                network.direct_fast_targets@.len() as int,
            ),
            old(self).fast_inputs@.len() == network.node_total(),
        ensures
            final(self).fast_inputs@.len() == network.node_total(),
            forall|i: int|
                0 <= i < network.node_total() ==> #[trigger] final(self).fast_inputs@[i] == if lists_node(
                    network.fast_targets_of(source.0 as int),
                    i,
                ) {
                    node_input(network, i, final(self).outputs@, final(self).wire_powers@)
                } else {
                    old(self).fast_inputs@[i]
                },
            final(self).outputs == old(self).outputs,
            final(self).wire_powers == old(self).wire_powers,
            final(self).direct_wire_powers == old(self).direct_wire_powers,
            final(self).wire_predecessor_counts == old(self).wire_predecessor_counts,
            final(self).wire_predecessor_masks == old(self).wire_predecessor_masks,
            final(self).fast_input_enabled == old(self).fast_input_enabled,
            final(self).fast_input_emitted_epochs == old(self).fast_input_emitted_epochs,
            final(self).fast_input_dirty_epochs == old(self).fast_input_dirty_epochs,
            final(self).fast_input_epoch == old(self).fast_input_epoch,
            final(self).wire_inputs_dirty == old(self).wire_inputs_dirty,
            final(self).queue == old(self).queue,
            final(self).ordered_stack == old(self).ordered_stack,
    {
        let ghost m = network.node_total();
        let targets = network.direct_fast_targets(source);
        let mut k: usize = 0;
        while k < targets.len()
            invariant
                network.fast_targets_in_range(),
                csr_ranges_in_bounds(network.input_offsets@, network.input_ports@.len() as int),
                csr_ranges_in_bounds(
                    network.direct_fast_target_offsets@,
                    network.direct_fast_targets@.len() as int,
                ),
                m == network.node_total(),
                targets@ == network.fast_targets_of(source.0 as int),
                k <= targets@.len(),
                self.fast_inputs@.len() == m,
                forall|i: int|
                    0 <= i < m ==> #[trigger] self.fast_inputs@[i] == if lists_node(
                        targets@.subrange(0, k as int),
                        i,
                    ) {
                        node_input(network, i, self.outputs@, self.wire_powers@)
                    } else {
                        old(self).fast_inputs@[i]
                    },
                self.outputs == old(self).outputs,
                self.wire_powers == old(self).wire_powers,
                self.direct_wire_powers == old(self).direct_wire_powers,
                self.wire_predecessor_counts == old(self).wire_predecessor_counts,
                self.wire_predecessor_masks == old(self).wire_predecessor_masks,
                self.fast_input_enabled == old(self).fast_input_enabled,
                self.fast_input_emitted_epochs == old(self).fast_input_emitted_epochs,
                self.fast_input_dirty_epochs == old(self).fast_input_dirty_epochs,
                self.fast_input_epoch == old(self).fast_input_epoch,
                self.wire_inputs_dirty == old(self).wire_inputs_dirty,
                self.queue == old(self).queue,
                self.ordered_stack == old(self).ordered_stack,
            decreases targets@.len() - k,
        {
            let target = targets[k];
            proof {
                lemma_csr_slice_element(network, source.0 as int, k as int);
                assert forall|i: int| 0 <= i < m implies #[trigger] lists_node(targets@.subrange(0, k + 1), i)
                    == (lists_node(targets@.subrange(0, k as int), i) || targets@[k as int].0 == i) by {
                    lemma_lists_node_prefix(targets@, k as int, i);
                }
            }
            let next = self.node_input_power(network, target);
            if self.fast_inputs[target.index()] != next {
                self.fast_inputs.set(target.index(), next);
            }
            k += 1;
        }
        proof {
            assert(targets@.subrange(0, targets@.len() as int) =~= targets@);
        }
    }

    /// Stops every node from reading its inputs on the fast path.
    pub fn disable_all_fast_inputs(&mut self)
        ensures
            final(self).fast_enabled().len() == old(self).fast_enabled().len(),
            forall|i: int| 0 <= i < final(self).fast_enabled().len() ==> !(#[trigger] final(self).fast_enabled()[i]),
            final(self).output_levels() == old(self).output_levels(),
            final(self).powers() == old(self).powers(),
            final(self).direct_levels() == old(self).direct_levels(),
            final(self).bucket_rows() == old(self).bucket_rows(),
            final(self).bucket_masks() == old(self).bucket_masks(),
            final(self).fast_input_levels() == old(self).fast_input_levels(),
            final(self).dirty_wires() == old(self).dirty_wires(),
            forall|network: &StaticNetwork| old(self).inv(network) ==> #[trigger] final(self).inv(network),
    {
        let mut i: usize = 0;
        while i < self.fast_input_enabled.len()
            invariant
                i <= self.fast_input_enabled@.len(),
                self.fast_input_enabled@.len() == old(self).fast_input_enabled@.len(),
                forall|j: int| 0 <= j < i ==> !(#[trigger] self.fast_input_enabled@[j]),
                self.outputs == old(self).outputs,
                self.wire_powers == old(self).wire_powers,
                self.direct_wire_powers == old(self).direct_wire_powers,
                self.wire_predecessor_counts == old(self).wire_predecessor_counts,
                self.wire_predecessor_masks == old(self).wire_predecessor_masks,
                self.fast_inputs == old(self).fast_inputs,
                self.fast_input_emitted_epochs == old(self).fast_input_emitted_epochs,
                self.fast_input_dirty_epochs == old(self).fast_input_dirty_epochs,
                self.fast_input_epoch == old(self).fast_input_epoch,
                self.wire_inputs_dirty == old(self).wire_inputs_dirty,
                self.queue == old(self).queue,
                self.ordered_stack == old(self).ordered_stack,
            decreases self.fast_input_enabled@.len() - i,
        {
            self.fast_input_enabled.set(i, false);
            i += 1;
        }
    }

    /// Propagates a change at wire `origin` in the precompiled order and
    /// returns what changed, in order; see `propagate_ordered_into`.
    pub fn propagate_ordered(&mut self, network: &StaticNetwork, origin: NetworkWireId) -> (result: Result<Vec<OrderedWireEvent>, OrderedPropagationError>)
        requires
            network_ready(network),
            old(self).inv(network),
        ensures
            final(self).inv(network),
            match result {
                Ok(events) => {
                    &&& events_valid(network, events@)
                    &&& chained(old(self).powers(), events@)
                    &&& final(self).powers() == replay(old(self).powers(), events@)
                },
                Err(_) => final(self).powers() == old(self).powers(),
            },
            origin.0 >= network.wires.count() ==> result == Err::<Vec<OrderedWireEvent>, OrderedPropagationError>(
                OrderedPropagationError::InvalidWire(origin),
            ),
            match result {
                Ok(_) => true,
                Err(error) => propagation_error_allowed(network, origin, false, Seq::<bool>::empty(), Err(error)),
            },
            result is Err ==> buckets_restored(old(self).bucket_rows(), old(self).bucket_masks(), final(self).bucket_rows(), final(self).bucket_masks()),
            origin_outcome(
                network,
                origin,
                false,
                Seq::<bool>::empty(),
                old(self).powers(),
                old(self).direct_levels(),
                match result {
                    Ok(_) => Ok::<(), OrderedPropagationError>(()),
                    Err(error) => Err(error),
                },
                match result {
                    Ok(events) => events@,
                    Err(_) => Seq::<OrderedWireEvent>::empty(),
                },
                final(self).powers(),
            ),
            result is Ok && clean_settled(
                network.wires,
                old(self).powers(),
                old(self).direct_levels(),
                old(self).dirty_wires().update(origin.0 as int, true),
            ) ==> clean_settled(network.wires, final(self).powers(), final(self).direct_levels(), final(self).dirty_wires()),
            origin.0 < network.wires.count() ==> match walk(
                network,
                old(self).walk_setting(false, Seq::<bool>::empty()),
                old(self).walk_start(origin),
                ORDERED_PROPAGATION_LIMIT as nat,
            ) {
                Ok(w) => result is Ok && result->Ok_0@ == w.events && final(self).powers() == w.powers,
                Err(error) => result == Err::<Vec<OrderedWireEvent>, OrderedPropagationError>(error),
            },
            final(self).output_levels() == old(self).output_levels(),
            final(self).direct_levels() == old(self).direct_levels(),
            final(self).fast_enabled() == old(self).fast_enabled(),
    {
        let mut events: Vec<OrderedWireEvent> = Vec::new();
        let disabled: &[bool] = &[];
        proof {
            assert(disabled@ =~= Seq::<bool>::empty());
        }
        match self.propagate_ordered_inner(network, origin, false, disabled, &mut events) {
            Ok(()) => Ok(events),
            Err(error) => Err(error),
        }
    }

    /// Propagates a change at wire `origin` in the precompiled order into
    /// `events`: each marked wire that is reached recomputes its power from
    /// its buckets and direct power, and a changed wire visits its ordered
    /// update list depth first. The result, the events and the new powers
    /// are those of `walk` from `walk_start`, step by step; past the
    /// iteration limit it fails. On failure every wire change is undone.
    pub fn propagate_ordered_into(&mut self, network: &StaticNetwork, origin: NetworkWireId, events: &mut Vec<OrderedWireEvent>) -> (result: Result<(), OrderedPropagationError>)
        requires
            network_ready(network),
            old(self).inv(network),
        ensures
            final(self).inv(network),
            events_valid(network, final(events)@),
            match result {
                Ok(()) => {
                    &&& chained(old(self).powers(), final(events)@)
                    &&& final(self).powers() == replay(old(self).powers(), final(events)@)
                },
                Err(_) => final(self).powers() == old(self).powers(),
            },
            origin.0 >= network.wires.count() ==> result == Err::<(), OrderedPropagationError>(
                OrderedPropagationError::InvalidWire(origin),
            ) && final(events)@.len() == 0,
            propagation_error_allowed(network, origin, false, Seq::<bool>::empty(), result),
            result is Err ==> buckets_restored(old(self).bucket_rows(), old(self).bucket_masks(), final(self).bucket_rows(), final(self).bucket_masks()),
            origin_outcome(
                network,
                origin,
                false,
                Seq::<bool>::empty(),
                old(self).powers(),
                old(self).direct_levels(),
                result,
                final(events)@,
                final(self).powers(),
            ),
            result is Ok && clean_settled(
                network.wires,
                old(self).powers(),
                old(self).direct_levels(),
                old(self).dirty_wires().update(origin.0 as int, true),
            ) ==> clean_settled(network.wires, final(self).powers(), final(self).direct_levels(), final(self).dirty_wires()),
            origin.0 < network.wires.count() ==> match walk(
                network,
                old(self).walk_setting(false, Seq::<bool>::empty()),
                old(self).walk_start(origin),
                ORDERED_PROPAGATION_LIMIT as nat,
            ) {
                Ok(w) => result == Ok::<(), OrderedPropagationError>(()) && final(events)@ == w.events
                    && final(self).powers() == w.powers,
                Err(error) => result == Err::<(), OrderedPropagationError>(error),
            },
            final(self).output_levels() == old(self).output_levels(),
            final(self).direct_levels() == old(self).direct_levels(),
            final(self).fast_enabled() == old(self).fast_enabled(),
    {
        let disabled: &[bool] = &[];
        proof {
            assert(disabled@ =~= Seq::<bool>::empty());
        }
        self.propagate_ordered_inner(network, origin, false, disabled, events)
    }

    /// As `propagate_ordered_into`, but reaching a wire flagged in
    /// `disabled_wires` fails with that wire, and every change is undone.
    pub fn propagate_ordered_with_disabled_into(
        &mut self,
        network: &StaticNetwork,
        origin: NetworkWireId,
        disabled_wires: &[bool],
        events: &mut Vec<OrderedWireEvent>,
    ) -> (result: Result<(), OrderedPropagationError>)
        requires
            network_ready(network),
            old(self).inv(network),
        ensures
            final(self).inv(network),
            events_valid(network, final(events)@),
            match result {
                Ok(()) => {
                    &&& chained(old(self).powers(), final(events)@)
                    &&& final(self).powers() == replay(old(self).powers(), final(events)@)
                },
                Err(_) => final(self).powers() == old(self).powers(),
            },
            origin.0 >= network.wires.count() ==> result == Err::<(), OrderedPropagationError>(
                OrderedPropagationError::InvalidWire(origin),
            ) && final(events)@.len() == 0,
            propagation_error_allowed(network, origin, true, disabled_wires@, result),
            result is Err ==> buckets_restored(old(self).bucket_rows(), old(self).bucket_masks(), final(self).bucket_rows(), final(self).bucket_masks()),
            origin_outcome(
                network,
                origin,
                true,
                disabled_wires@,
                old(self).powers(),
                old(self).direct_levels(),
                result,
                final(events)@,
                final(self).powers(),
            ),
            result is Ok && clean_settled(
                network.wires,
                old(self).powers(),
                old(self).direct_levels(),
                old(self).dirty_wires().update(origin.0 as int, true),
            ) ==> clean_settled(network.wires, final(self).powers(), final(self).direct_levels(), final(self).dirty_wires()),
            origin.0 < network.wires.count() ==> match walk(
                network,
                old(self).walk_setting(true, disabled_wires@),
                old(self).walk_start(origin),
                ORDERED_PROPAGATION_LIMIT as nat,
            ) {
                Ok(w) => result == Ok::<(), OrderedPropagationError>(()) && final(events)@ == w.events
                    && final(self).powers() == w.powers,
                Err(error) => result == Err::<(), OrderedPropagationError>(error),
            },
            final(self).output_levels() == old(self).output_levels(),
            final(self).direct_levels() == old(self).direct_levels(),
            final(self).fast_enabled() == old(self).fast_enabled(),
    {
        self.propagate_ordered_inner(network, origin, true, disabled_wires, events)
    }
}

/// The occurrences of `w` in two joined lists add up.
proof fn lemma_occurrences_concat(a: Seq<NetworkWireId>, b: Seq<NetworkWireId>, w: int)
    ensures
        occurrences(a + b, w) == occurrences(a, w) + occurrences(b, w),
    decreases b.len(),
{
    if b.len() == 0 {
        assert(a + b =~= a);
    } else {
        lemma_occurrences_concat(a, b.drop_last(), w);
        assert((a + b).drop_last() =~= a + b.drop_last());
    }
}

/// The in-degree of a wire over the first `upto` wires counts its entries in
/// the leading part of the dependent table that those wires own.
proof fn lemma_in_degree_prefix(graph: DenseWireGraph, w: int, upto: int)
    requires
        csr_valid(graph.dependent_offsets@, graph.count(), graph.dependents@.len() as int),
        0 <= upto <= graph.count(),
    ensures
        in_degree(graph, w, upto) == occurrences(
            graph.dependents@.subrange(0, graph.dependent_offsets@[upto] as int),
            w,
        ),
    decreases upto,
{
    let offsets = graph.dependent_offsets@;
    let values = graph.dependents@;
    if upto == 0 {
        assert(values.subrange(0, offsets[0] as int) =~= Seq::<NetworkWireId>::empty());
    } else {
        lemma_in_degree_prefix(graph, w, upto - 1);
        assert(offsets[upto - 1] <= offsets[upto] <= values.len());
        assert(values.subrange(0, offsets[upto] as int) =~= values.subrange(0, offsets[upto - 1] as int)
            + graph.dependents_of(upto - 1));
        lemma_occurrences_concat(
            values.subrange(0, offsets[upto - 1] as int),
            graph.dependents_of(upto - 1),
            w,
        );
    }
}

/// Whether no wire of `graph` is named by more than 255 dependent entries,
/// counted over the dependent table.
fn dependents_fit_buckets(graph: &DenseWireGraph) -> (result: bool)
    requires
        graph.well_formed(),
    ensures
        result == buckets_fit(*graph),
{
    let n = graph.len();
    let mut degree: Vec<u16> = Vec::new();
    let mut i: usize = 0;
    while i < n
        invariant
            i <= n,
            degree@.len() == i,
            forall|j: int| 0 <= j < i ==> #[trigger] degree@[j] == 0,
        decreases n - i,
    {
        degree.push(0);
        i += 1;
    }
    let ghost values = graph.dependents@;
    proof {
        assert forall|w: int| 0 <= w < n implies #[trigger] degree@[w] as nat == occurrences(
            values.subrange(0, 0),
            w,
        ) by {
            assert(values.subrange(0, 0) =~= Seq::<NetworkWireId>::empty());
        }
    }
    let mut k: usize = 0;
    while k < graph.dependents.len()
        invariant
            n == graph.count(),
            values == graph.dependents@,
            csr_valid(graph.dependent_offsets@, graph.count(), graph.dependents@.len() as int),
            k <= values.len(),
            degree@.len() == n,
            forall|w: int| 0 <= w < n ==> #[trigger] degree@[w] as nat == occurrences(values.subrange(0, k as int), w),
            forall|w: int| 0 <= w < n ==> #[trigger] degree@[w] <= 255,
        decreases values.len() - k,
    {
        let w = graph.dependents[k].index();
        proof {
            assert forall|x: int| 0 <= x < n implies #[trigger] occurrences(values.subrange(0, k + 1), x)
                == occurrences(values.subrange(0, k as int), x) + if values[k as int].0 == x {
                1nat
            } else {
                0nat
            } by {
                lemma_occurrences_prefix(values, k as int, x);
            }
        }
        if w < n {
            if degree[w] == 255 {
                proof {
                    lemma_occurrences_prefix_le(values, k + 1, w as int);
                    lemma_in_degree_prefix(*graph, w as int, n as int);
                    assert(graph.dependents@.subrange(0, graph.dependent_offsets@[n as int] as int) =~= values);
                }
                return false;
            }
            let next = degree[w] + 1;
            degree.set(w, next);
        }
        k += 1;
    }
    proof {
        assert(values.subrange(0, values.len() as int) =~= values);
        assert forall|w: int| 0 <= w < n implies #[trigger] in_degree(*graph, w, graph.count()) <= 255 by {
            assert(degree@[w] <= 255);
            lemma_in_degree_prefix(*graph, w, n as int);
            assert(graph.dependents@.subrange(0, graph.dependent_offsets@[n as int] as int) =~= values);
        }
    }
    true
}

/// Whether every node's edge range lies inside the edge table.
fn edge_ranges_fit(network: &StaticNetwork) -> (result: bool)
    ensures
        result == network.edge_ranges_in_bounds(),
{
    let mut i: usize = 0;
    while i < network.nodes.len()
        invariant
            i <= network.nodes@.len(),
            forall|j: int|
                0 <= j < i ==> #[trigger] network.nodes@[j].first_edge + network.nodes@[j].edge_count
                    <= network.edges@.len(),
        decreases network.nodes@.len() - i,
    {
        let node = &network.nodes[i];
        if node.first_edge as u64 + node.edge_count as u64 > network.edges.len() as u64 {
            return false;
        }
        i += 1;
    }
    true
}

/// Whether every direct fast target names a node.
fn fast_targets_fit(network: &StaticNetwork) -> (result: bool)
    ensures
        result == network.fast_targets_in_range(),
{
    let mut k: usize = 0;
    while k < network.direct_fast_targets.len()
        invariant
            k <= network.direct_fast_targets@.len(),
            forall|j: int| 0 <= j < k ==> (#[trigger] network.direct_fast_targets@[j]).0 < network.node_total(),
        decreases network.direct_fast_targets@.len() - k,
    {
        if network.direct_fast_targets[k].index() >= network.nodes.len() {
            return false;
        }
        k += 1;
    }
    true
}

/// Whether every recorded initial wire power is a signal level.
fn initial_powers_fit(graph: &DenseWireGraph) -> (result: bool)
    ensures
        result == forall|w: int| 0 <= w < graph.initial_power@.len() ==> #[trigger] graph.initial_power@[w] <= 15,
{
    let mut k: usize = 0;
    while k < graph.initial_power.len()
        invariant
            k <= graph.initial_power@.len(),
            forall|j: int| 0 <= j < k ==> #[trigger] graph.initial_power@[j] <= 15,
        decreases graph.initial_power@.len() - k,
    {
        if graph.initial_power[k] > 15 {
            return false;
        }
        k += 1;
    }
    true
}

/// Whether a runtime can run over `network`: the network is consistent, its
/// fast targets are nodes, every bucket count fits a byte, its ids fit 32
/// bits and every initial wire power is a signal level.
pub fn network_is_ready(network: &StaticNetwork) -> (ready: bool)
    ensures
        ready == network_ready(network),
{
    proof {
        reveal(network_ready);
    }
    if !edge_ranges_fit(network) {
        return false;
    }
    match network.validate() {
        Ok(()) => {},
        Err(_) => {
            return false;
        },
    }
    if network.nodes.len() > 0xffff_ffff || network.wires.len() > 0xffff_ffff {
        return false;
    }
    if !fast_targets_fit(network) {
        return false;
    }
    if !initial_powers_fit(&network.wires) {
        return false;
    }
    dependents_fit_buckets(&network.wires)
}

/// Whether a change of wire `wire` reaches node `i` on the fast path: the
/// node reads the wire, or sits at a boundary in the wire's ordered list.
pub open spec fn touches(network: &StaticNetwork, wire: NetworkWireId, i: int) -> bool {
    ||| exists|k: int|
        0 <= k < network.wires.targets_of(wire.0 as int).len() && (
        #[trigger] network.wires.targets_of(wire.0 as int)[k]).target.0 == i
    ||| exists|k: int|
        0 <= k < network.wires.ordered_targets_of(wire.0 as int).len() && boundary_node_is(
            network,
            #[trigger] network.wires.ordered_targets_of(wire.0 as int)[k],
            i,
        )
}

/// Whether an ordered entry is a boundary whose fast-input node is node `i`.
pub open spec fn boundary_node_is(network: &StaticNetwork, target: OrderedWireTarget, i: int) -> bool {
    &&& flagged(target.0)
    &&& unflagged(target.0) < network.wires.ordered_boundaries@.len()
    &&& network.wires.ordered_boundaries@[unflagged(target.0) as int].fast_input_node matches Some(node)
        && node.0 == i
}

/// Whether a change at one of `positions` reaches node `i` on the fast path.
pub open spec fn silenced(network: &StaticNetwork, positions: Seq<BlockPos>, i: int) -> bool {
    exists|p: int, wire: NetworkWireId|
        0 <= p < positions.len() && network.wires.starts_change(#[trigger] positions[p], wire) && #[trigger] touches(
            network,
            wire,
            i,
        )
}

impl NetworkRuntime {
    /// Takes every node that a change of wire `wire` reaches off the fast path.
    fn silence_wire(&mut self, network: &StaticNetwork, wire: NetworkWireId)
        requires
            network.wires.tables_in_bounds(),
        ensures
            final(self).fast_input_enabled@.len() == old(self).fast_input_enabled@.len(),
            forall|i: int|
                0 <= i < old(self).fast_input_enabled@.len() ==> #[trigger] final(self).fast_input_enabled@[i]
                    == (old(self).fast_input_enabled@[i] && !touches(network, wire, i)),
            final(self).outputs == old(self).outputs,
            final(self).wire_powers == old(self).wire_powers,
            final(self).direct_wire_powers == old(self).direct_wire_powers,
            final(self).wire_predecessor_counts == old(self).wire_predecessor_counts,
            final(self).wire_predecessor_masks == old(self).wire_predecessor_masks,
            final(self).fast_inputs == old(self).fast_inputs,
            final(self).fast_input_emitted_epochs == old(self).fast_input_emitted_epochs,
            final(self).fast_input_dirty_epochs == old(self).fast_input_dirty_epochs,
            final(self).fast_input_epoch == old(self).fast_input_epoch,
            final(self).wire_inputs_dirty == old(self).wire_inputs_dirty,
            final(self).queue == old(self).queue,
            final(self).ordered_stack == old(self).ordered_stack,
    {
        let ghost m = self.fast_input_enabled@.len();
        let targets = network.wires.targets(wire);
        let mut k: usize = 0;
        while k < targets.len()
            invariant
                k <= targets@.len(),
                targets@ == network.wires.targets_of(wire.0 as int),
                self.fast_input_enabled@.len() == m,
                forall|i: int|
                    0 <= i < m ==> #[trigger] self.fast_input_enabled@[i] == (old(self).fast_input_enabled@[i]
                        && !(exists|j: int| 0 <= j < k && (#[trigger] targets@[j]).target.0 == i)),
                self.outputs == old(self).outputs,
                self.wire_powers == old(self).wire_powers,
                self.direct_wire_powers == old(self).direct_wire_powers,
                self.wire_predecessor_counts == old(self).wire_predecessor_counts,
                self.wire_predecessor_masks == old(self).wire_predecessor_masks,
                self.fast_inputs == old(self).fast_inputs,
                self.fast_input_emitted_epochs == old(self).fast_input_emitted_epochs,
                self.fast_input_dirty_epochs == old(self).fast_input_dirty_epochs,
                self.fast_input_epoch == old(self).fast_input_epoch,
                self.wire_inputs_dirty == old(self).wire_inputs_dirty,
                self.queue == old(self).queue,
                self.ordered_stack == old(self).ordered_stack,
            decreases targets@.len() - k,
        {
            let node = targets[k].target.index();
            if node < self.fast_input_enabled.len() {
                self.fast_input_enabled.set(node, false);
            }
            proof {
                assert forall|i: int| 0 <= i < m implies #[trigger] self.fast_input_enabled@[i] == (old(self).fast_input_enabled@[i] && !(exists|j: int| 0 <= j < k + 1 && (#[trigger] targets@[j]).target.0 == i)) by {
                    if i == node {
                        assert(targets@[k as int].target.0 == i);
                    }
                }
            }
            k += 1;
        }
        let ordered = network.wires.ordered_targets(wire);
        let mut k: usize = 0;
        while k < ordered.len()
            invariant
                k <= ordered@.len(),
                targets@ == network.wires.targets_of(wire.0 as int),
                ordered@ == network.wires.ordered_targets_of(wire.0 as int),
                self.fast_input_enabled@.len() == m,
                forall|i: int|
                    0 <= i < m ==> #[trigger] self.fast_input_enabled@[i] == (old(self).fast_input_enabled@[i]
                        && !(exists|j: int| 0 <= j < targets@.len() && (#[trigger] targets@[j]).target.0 == i)
                        && !(exists|j: int| 0 <= j < k && boundary_node_is(network, #[trigger] ordered@[j], i))),
                self.outputs == old(self).outputs,
                self.wire_powers == old(self).wire_powers,
                self.direct_wire_powers == old(self).direct_wire_powers,
                self.wire_predecessor_counts == old(self).wire_predecessor_counts,
                self.wire_predecessor_masks == old(self).wire_predecessor_masks,
                self.fast_inputs == old(self).fast_inputs,
                self.fast_input_emitted_epochs == old(self).fast_input_emitted_epochs,
                self.fast_input_dirty_epochs == old(self).fast_input_dirty_epochs,
                self.fast_input_epoch == old(self).fast_input_epoch,
                self.wire_inputs_dirty == old(self).wire_inputs_dirty,
                self.queue == old(self).queue,
                self.ordered_stack == old(self).ordered_stack,
            decreases ordered@.len() - k,
        {
            let entry = ordered[k];
            let ghost before = self.fast_input_enabled@;
            let mut hit: Option<usize> = None;
            match entry.boundary_index() {
                Some(index) => match network.wires.ordered_boundary(index) {
                    Some(boundary) => match boundary.fast_input_node {
                        Some(node) => {
                            if node.index() < self.fast_input_enabled.len() {
                                self.fast_input_enabled.set(node.index(), false);
                            }
                            hit = Some(node.index());
                        },
                        None => {},
                    },
                    None => {},
                },
                None => {},
            }
            proof {
                assert forall|i: int| 0 <= i < m implies #[trigger] self.fast_input_enabled@[i] == (old(self).fast_input_enabled@[i] && !(exists|j: int| 0 <= j < targets@.len() && (#[trigger] targets@[j]).target.0 == i)
                    && !(exists|j: int| 0 <= j < k + 1 && boundary_node_is(network, #[trigger] ordered@[j], i))) by {
                    if boundary_node_is(network, ordered@[k as int], i) {
                        assert(hit == Some(i as usize));
                    } else {
                        assert(self.fast_input_enabled@[i] == before[i]);
                    }
                }
            }
            k += 1;
        }
    }

    /// Takes every node that a change at one of `positions` reaches off the
    /// fast path: the nodes reading a wire where the change starts an
    /// update, and the fast-input nodes at the boundaries of its ordered list.
    pub fn invalidate_fast_inputs(&mut self, network: &StaticNetwork, positions: &[BlockPos])
        requires
            network.wires.tables_in_bounds(),
        ensures
            final(self).fast_enabled().len() == old(self).fast_enabled().len(),
            forall|i: int|
                0 <= i < old(self).fast_enabled().len() ==> #[trigger] final(self).fast_enabled()[i] == (old(self).fast_enabled()[i] && !silenced(network, positions@, i)),
            final(self).output_levels() == old(self).output_levels(),
            final(self).powers() == old(self).powers(),
            final(self).direct_levels() == old(self).direct_levels(),
            final(self).bucket_rows() == old(self).bucket_rows(),
            final(self).bucket_masks() == old(self).bucket_masks(),
            final(self).fast_input_levels() == old(self).fast_input_levels(),
            final(self).dirty_wires() == old(self).dirty_wires(),
            forall|network: &StaticNetwork| old(self).inv(network) ==> #[trigger] final(self).inv(network),
    {
        let ghost m = self.fast_input_enabled@.len();
        let mut p: usize = 0;
        while p < positions.len()
            invariant
                p <= positions@.len(),
                network.wires.tables_in_bounds(),
                self.fast_input_enabled@.len() == m,
                forall|i: int|
                    0 <= i < m ==> #[trigger] self.fast_input_enabled@[i] == (old(self).fast_input_enabled@[i]
                        && !silenced(network, positions@.subrange(0, p as int), i)),
                self.outputs == old(self).outputs,
                self.wire_powers == old(self).wire_powers,
                self.direct_wire_powers == old(self).direct_wire_powers,
                self.wire_predecessor_counts == old(self).wire_predecessor_counts,
                self.wire_predecessor_masks == old(self).wire_predecessor_masks,
                self.fast_inputs == old(self).fast_inputs,
                self.fast_input_emitted_epochs == old(self).fast_input_emitted_epochs,
                self.fast_input_dirty_epochs == old(self).fast_input_dirty_epochs,
                self.fast_input_epoch == old(self).fast_input_epoch,
                self.wire_inputs_dirty == old(self).wire_inputs_dirty,
                self.queue == old(self).queue,
                self.ordered_stack == old(self).ordered_stack,
            decreases positions@.len() - p,
        {
            let pos = positions[p];
            let starts = network.wires.starts_for_change(pos);
            let ghost at_start = self.fast_input_enabled@;
            let mut k: usize = 0;
            while k < starts.len()
                invariant
                    k <= starts@.len(),
                    p < positions@.len(),
                    pos == positions@[p as int],
                    network.wires.tables_in_bounds(),
                    forall|wire: NetworkWireId| starts@.contains(wire) <==> network.wires.starts_change(pos, wire),
                    self.fast_input_enabled@.len() == m,
                    forall|i: int|
                        0 <= i < m ==> #[trigger] self.fast_input_enabled@[i] == (at_start[i] && !(exists|j: int|
                            0 <= j < k && touches(network, #[trigger] starts@[j], i))),
                    self.outputs == old(self).outputs,
                    self.wire_powers == old(self).wire_powers,
                    self.direct_wire_powers == old(self).direct_wire_powers,
                    self.wire_predecessor_counts == old(self).wire_predecessor_counts,
                    self.wire_predecessor_masks == old(self).wire_predecessor_masks,
                    self.fast_inputs == old(self).fast_inputs,
                    self.fast_input_emitted_epochs == old(self).fast_input_emitted_epochs,
                    self.fast_input_dirty_epochs == old(self).fast_input_dirty_epochs,
                    self.fast_input_epoch == old(self).fast_input_epoch,
                    self.wire_inputs_dirty == old(self).wire_inputs_dirty,
                    self.queue == old(self).queue,
                    self.ordered_stack == old(self).ordered_stack,
                decreases starts@.len() - k,
            {
                let ghost before = self.fast_input_enabled@;
                self.silence_wire(network, starts[k]);
                proof {
                    assert forall|i: int| 0 <= i < m implies #[trigger] self.fast_input_enabled@[i] == (at_start[i]
                        && !(exists|j: int| 0 <= j < k + 1 && touches(network, #[trigger] starts@[j], i))) by {
                        if touches(network, starts@[k as int], i) {
                        }
                    }
                }
                k += 1;
            }
            proof {
                assert forall|i: int| 0 <= i < m implies #[trigger] self.fast_input_enabled@[i] == (old(self).fast_input_enabled@[i] && !silenced(network, positions@.subrange(0, p + 1), i)) by {
                    let shorter = positions@.subrange(0, p as int);
                    let longer = positions@.subrange(0, p + 1);
                    if silenced(network, longer, i) {
                        let (q, wire) = choose|q: int, wire: NetworkWireId|
                            0 <= q < longer.len() && network.wires.starts_change(#[trigger] longer[q], wire)
                                && #[trigger] touches(network, wire, i);
                        if q < p {
                            assert(shorter[q] == longer[q]);
                            assert(silenced(network, shorter, i));
                        } else {
                            assert(starts@.contains(wire));
                            let j = choose|j: int| 0 <= j < starts@.len() && starts@[j] == wire;
                            assert(touches(network, starts@[j], i));
                        }
                    }
                    if silenced(network, shorter, i) {
                        let (q, wire) = choose|q: int, wire: NetworkWireId|
                            0 <= q < shorter.len() && network.wires.starts_change(#[trigger] shorter[q], wire)
                                && #[trigger] touches(network, wire, i);
                        assert(longer[q] == shorter[q]);
                    }
                    if exists|j: int| 0 <= j < starts@.len() && touches(network, #[trigger] starts@[j], i) {
                        let j = choose|j: int| 0 <= j < starts@.len() && touches(network, #[trigger] starts@[j], i);
                        assert(starts@.contains(starts@[j]));
                        assert(longer[p as int] == pos);
                    }
                }
            }
            p += 1;
        }
        proof {
            assert(positions@.subrange(0, positions@.len() as int) =~= positions@);
        }
    }
}

} // verus!
