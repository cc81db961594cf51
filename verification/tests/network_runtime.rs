use redstone_java::compiled::csr::csr_offsets;
use redstone_java::compiled::draft_order::EdgeDraft;
use redstone_java::compiled::dense::DenseWireGraph;
use redstone_java::compiled::network::{
    NetworkInputKind, NetworkWireTarget, NetworkBuildStats, NetworkInputPower, NetworkNode, NetworkNodeId, NetworkNodeKind,
    NetworkWireId, NetworkWireSource, OrderedBoundaryTarget, OrderedWireTarget,
};
use redstone_java::compiled::runtime::{
    network_is_ready, NetworkRuntime, OrderedPropagationError, OrderedWireEvent,
    WirePowerTransition,
};
use redstone_java::compiled::state::{CompiledWireTransition, NetworkState};
use redstone_java::compiled::static_network::{NetworkBuildParts, StaticNetwork};
use redstone_java::position::{BlockPos, BlockStateId};
use redstone_java::posmap::PositionMap;

fn nodes(definitions: &[(NetworkNodeKind, u8)]) -> (Vec<NetworkNode>, PositionMap<NetworkNodeId>) {
    let mut positions = PositionMap::new();
    let mut nodes = Vec::new();
    for (index, (kind, output)) in definitions.iter().enumerate() {
        let id = NetworkNodeId(index as u32);
        let pos = BlockPos::new(100 + index as i32, 0, 0);
        positions.insert(pos, id);
        nodes.push(NetworkNode::new(
            id,
            pos,
            BlockStateId(index as u32),
            *kind,
            *output,
            None,
            NetworkInputPower::zero(),
            None,
            false,
        ));
    }
    (nodes, positions)
}

fn empty_wires() -> DenseWireGraph {
    DenseWireGraph {
        positions: Vec::new(),
        states: Vec::new(),
        initial_power: Vec::new(),
        position_index: PositionMap::new(),
        dependent_offsets: vec![0],
        dependents: Vec::new(),
        predecessor_offsets: vec![0],
        predecessors: Vec::new(),
        source_offsets: vec![0],
        sources: Vec::new(),
        target_offsets: vec![0],
        targets: Vec::new(),
        ordered_target_offsets: vec![0],
        ordered_targets: Vec::new(),
        ordered_boundaries: Vec::new(),
        observer_offsets: vec![0],
        observers: Vec::new(),
        source_anchors: PositionMap::new(),
    }
}

fn semantic_network(definitions: &[(NetworkNodeKind, u8)]) -> StaticNetwork {
    let (nodes, positions) = nodes(definitions);
    StaticNetwork::finalize(NetworkBuildParts {
        nodes,
        positions,
        drafts: Vec::new(),
        position_dependencies: Vec::new(),
        input_offsets: vec![0; definitions.len() + 1],
        input_ports: Vec::new(),
        wires: empty_wires(),
        build_stats: NetworkBuildStats::zero(),
    })
}

fn wire_network(
    outputs: &[u8],
    wire_positions: &[BlockPos],
    directed_edges: &[(usize, usize)],
    source_ports: &[(usize, usize)],
) -> StaticNetwork {
    let definitions = outputs
        .iter()
        .map(|output| (NetworkNodeKind::Lever, *output))
        .collect::<Vec<_>>();
    let (nodes, positions) = nodes(&definitions);
    let wire_count = wire_positions.len();
    let mut position_index = PositionMap::new();
    for (index, pos) in wire_positions.iter().enumerate() {
        position_index.insert(*pos, NetworkWireId(index as u32));
    }

    let mut dependents = directed_edges
        .iter()
        .map(|(source, target)| (*source as u32, *target as u32))
        .collect::<Vec<_>>();
    dependents.sort_unstable();
    let owners = dependents.iter().map(|(source, _)| *source as usize).collect::<Vec<_>>();
    let dependent_offsets = csr_offsets(wire_count, &owners);
    let dependent_values = dependents
        .iter()
        .map(|(_, target)| NetworkWireId(*target))
        .collect::<Vec<_>>();
    let mut predecessors = dependents
        .iter()
        .map(|(source, target)| (*target, *source))
        .collect::<Vec<_>>();
    predecessors.sort_unstable();
    let owners = predecessors.iter().map(|(target, _)| *target as usize).collect::<Vec<_>>();
    let predecessor_offsets = csr_offsets(wire_count, &owners);
    let predecessor_values = predecessors
        .iter()
        .map(|(_, source)| NetworkWireId(*source))
        .collect::<Vec<_>>();

    let mut wire_sources = source_ports
        .iter()
        .map(|(wire, source)| (*wire as u32, *source as u32))
        .collect::<Vec<_>>();
    wire_sources.sort_unstable();
    let owners = wire_sources.iter().map(|(wire, _)| *wire as usize).collect::<Vec<_>>();
    let source_offsets = csr_offsets(wire_count, &owners);
    let source_values = wire_sources
        .iter()
        .map(|(_, source)| NetworkWireSource { source: NetworkNodeId(*source) })
        .collect::<Vec<_>>();
    let mut source_anchors: PositionMap<Vec<NetworkWireId>> = PositionMap::new();
    for (wire, source) in &wire_sources {
        let pos = nodes[*source as usize].pos;
        let mut anchored = source_anchors.remove(pos).unwrap_or_default();
        anchored.push(NetworkWireId(*wire));
        source_anchors.insert(pos, anchored);
    }
    let wires = DenseWireGraph {
        positions: wire_positions.to_vec(),
        states: vec![BlockStateId(0); wire_count],
        initial_power: vec![0; wire_count],
        position_index,
        dependent_offsets,
        dependents: dependent_values,
        predecessor_offsets,
        predecessors: predecessor_values,
        source_offsets,
        sources: source_values,
        target_offsets: vec![0; wire_count + 1],
        targets: Vec::new(),
        ordered_target_offsets: vec![0; wire_count + 1],
        ordered_targets: Vec::new(),
        ordered_boundaries: Vec::new(),
        observer_offsets: vec![0; wire_count + 1],
        observers: Vec::new(),
        source_anchors,
    };
    StaticNetwork::finalize(NetworkBuildParts {
        nodes,
        positions,
        drafts: Vec::new(),
        position_dependencies: Vec::new(),
        input_offsets: vec![0; outputs.len() + 1],
        input_ports: Vec::new(),
        wires,
        build_stats: NetworkBuildStats::zero(),
    })
}

fn set_ordered_targets(network: &mut StaticNetwork, lists: &[Vec<OrderedWireTarget>]) {
    assert_eq!(lists.len(), network.wire_count());
    let mut offsets = Vec::with_capacity(lists.len() + 1);
    let mut targets = Vec::new();
    for list in lists {
        offsets.push(targets.len() as u32);
        targets.extend_from_slice(list);
    }
    offsets.push(targets.len() as u32);
    network.wires.ordered_target_offsets = offsets;
    network.wires.ordered_targets = targets;
}

fn push_ordered_boundary(
    network: &mut StaticNetwork,
    pos: BlockPos,
    source_pos: BlockPos,
) -> OrderedWireTarget {
    let index = network.wires.ordered_boundaries.len() as u32;
    network.wires.ordered_boundaries.push(OrderedBoundaryTarget {
        pos,
        source_pos,
        fast_input_node: None,
    });
    OrderedWireTarget::boundary(index)
}

fn ready_runtime(network: &StaticNetwork, comparator_outputs: &PositionMap<u8>) -> NetworkRuntime {
    assert!(network_is_ready(network));
    NetworkRuntime::new(network, comparator_outputs)
}

fn wire_powers(runtime: &NetworkRuntime, network: &StaticNetwork) -> Vec<u8> {
    (0..network.wire_count())
        .map(|index| runtime.wire_power(NetworkWireId(index as u32)).unwrap())
        .collect()
}

#[test]
fn directed_stair_does_not_power_the_predecessor() {
    let lower = BlockPos::new(1, -1, 0);
    let upper = BlockPos::zero();
    let network = wire_network(&[0], &[lower, upper], &[(0, 1)], &[(1, 0)]);
    let source = NetworkNodeId(0);
    let lower = network.wire_id(lower).unwrap();
    let upper = network.wire_id(upper).unwrap();
    let mut runtime = ready_runtime(&network, &PositionMap::new());

    runtime.update_source_deferred(&network, source, 15).unwrap();
    assert_eq!(runtime.wire_power(upper), Some(0));
    let events = runtime.propagate_ordered(&network, upper).unwrap();
    assert_eq!(runtime.wire_power(lower), Some(0));
    assert_eq!(runtime.wire_power(upper), Some(15));
    assert_eq!(
        events,
        [OrderedWireEvent::Wire(WirePowerTransition {
            wire: upper,
            old_power: 0,
            new_power: 15,
        })]
    );
}

#[test]
fn ordered_branch_follows_the_precompiled_target_order() {
    let positions = [
        BlockPos::new(0, 0, 0),
        BlockPos::new(1, 0, 0),
        BlockPos::new(0, 0, 1),
    ];
    let mut network = wire_network(&[0], &positions, &[(0, 1), (0, 2)], &[(0, 0)]);
    set_ordered_targets(
        &mut network,
        &[
            vec![
                OrderedWireTarget::wire(NetworkWireId(2)),
                OrderedWireTarget::wire(NetworkWireId(1)),
            ],
            Vec::new(),
            Vec::new(),
        ],
    );
    let mut runtime = ready_runtime(&network, &PositionMap::new());
    runtime.update_source_deferred(&network, NetworkNodeId(0), 15).unwrap();

    let events = runtime.propagate_ordered(&network, NetworkWireId(0)).unwrap();
    assert_eq!(
        events
            .iter()
            .filter_map(|event| match event {
                OrderedWireEvent::Wire(transition) => Some(transition.wire),
                OrderedWireEvent::Boundary { .. } => None,
            })
            .collect::<Vec<_>>(),
        [NetworkWireId(0), NetworkWireId(2), NetworkWireId(1)]
    );
}

#[test]
fn nested_comparator_boundary_precedes_the_parent_remaining_target() {
    let positions = [BlockPos::new(0, 0, 0), BlockPos::new(1, 0, 0)];
    let nested_comparator = BlockPos::new(2, 0, 0);
    let parent_comparator = BlockPos::new(0, 0, 1);
    let mut network = wire_network(&[0], &positions, &[(0, 1)], &[(0, 0)]);
    let parent_boundary = push_ordered_boundary(&mut network, parent_comparator, positions[0]);
    let nested_boundary = push_ordered_boundary(&mut network, nested_comparator, positions[1]);
    set_ordered_targets(
        &mut network,
        &[
            vec![OrderedWireTarget::wire(NetworkWireId(1)), parent_boundary],
            vec![nested_boundary],
        ],
    );
    let mut runtime = ready_runtime(&network, &PositionMap::new());
    runtime.update_source_deferred(&network, NetworkNodeId(0), 15).unwrap();

    let events = runtime.propagate_ordered(&network, NetworkWireId(0)).unwrap();
    assert_eq!(
        events,
        [
            OrderedWireEvent::Wire(WirePowerTransition {
                wire: NetworkWireId(0),
                old_power: 0,
                new_power: 15,
            }),
            OrderedWireEvent::Wire(WirePowerTransition {
                wire: NetworkWireId(1),
                old_power: 0,
                new_power: 14,
            }),
            OrderedWireEvent::Boundary { target: 1, input: None },
            OrderedWireEvent::Boundary { target: 0, input: None },
        ]
    );
}

#[test]
fn source_on_and_off_propagates_in_order() {
    let positions = [
        BlockPos::new(0, 0, 0),
        BlockPos::new(1, 0, 0),
        BlockPos::new(2, 0, 0),
    ];
    let mut network = wire_network(&[0], &positions, &[(0, 1), (1, 2)], &[(0, 0)]);
    set_ordered_targets(
        &mut network,
        &[
            vec![OrderedWireTarget::wire(NetworkWireId(1))],
            vec![OrderedWireTarget::wire(NetworkWireId(2))],
            Vec::new(),
        ],
    );
    let source = NetworkNodeId(0);
    let mut runtime = ready_runtime(&network, &PositionMap::new());

    runtime.update_source_deferred(&network, source, 15).unwrap();
    runtime.propagate_ordered(&network, NetworkWireId(0)).unwrap();
    assert_eq!(wire_powers(&runtime, &network), [15, 14, 13]);

    runtime.update_source_deferred(&network, source, 0).unwrap();
    runtime.propagate_ordered(&network, NetworkWireId(0)).unwrap();
    assert_eq!(wire_powers(&runtime, &network), [0, 0, 0]);
}

#[test]
fn another_source_remains_during_ordered_propagation() {
    let positions = [
        BlockPos::new(0, 0, 0),
        BlockPos::new(1, 0, 0),
        BlockPos::new(2, 0, 0),
    ];
    let mut network = wire_network(&[0, 10], &positions, &[(0, 1), (1, 2)], &[(0, 0), (2, 1)]);
    set_ordered_targets(
        &mut network,
        &[
            vec![OrderedWireTarget::wire(NetworkWireId(1))],
            vec![OrderedWireTarget::wire(NetworkWireId(2))],
            Vec::new(),
        ],
    );
    let mut runtime = ready_runtime(&network, &PositionMap::new());
    assert_eq!(wire_powers(&runtime, &network), [0, 0, 10]);

    runtime.update_source_deferred(&network, NetworkNodeId(0), 15).unwrap();
    runtime.propagate_ordered(&network, NetworkWireId(0)).unwrap();
    assert_eq!(wire_powers(&runtime, &network), [15, 14, 13]);

    runtime.update_source_deferred(&network, NetworkNodeId(0), 0).unwrap();
    runtime.propagate_ordered(&network, NetworkWireId(0)).unwrap();
    assert_eq!(wire_powers(&runtime, &network), [0, 0, 10]);
}

#[test]
fn failed_ordered_propagation_rolls_back_predecessor_buckets() {
    let positions = [BlockPos::new(0, 0, 0), BlockPos::new(1, 0, 0)];
    let mut network = wire_network(&[0], &positions, &[(0, 1)], &[(0, 0)]);
    set_ordered_targets(
        &mut network,
        &[vec![OrderedWireTarget::wire(NetworkWireId(1))], Vec::new()],
    );
    let mut runtime = ready_runtime(&network, &PositionMap::new());
    runtime.update_source_deferred(&network, NetworkNodeId(0), 15).unwrap();
    let mut events = Vec::new();

    assert_eq!(
        runtime.propagate_ordered_with_disabled_into(
            &network,
            NetworkWireId(0),
            &[false, true],
            &mut events,
        ),
        Err(OrderedPropagationError::DisabledWireCrossing(NetworkWireId(1)))
    );
    assert_eq!(wire_powers(&runtime, &network), [0, 0]);
    assert_eq!(runtime.predecessor_count(NetworkWireId(1), 14), Some(0));
    assert_eq!(runtime.predecessor_mask(NetworkWireId(1)), Some(0));

    runtime.propagate_ordered(&network, NetworkWireId(0)).unwrap();
    assert_eq!(wire_powers(&runtime, &network), [15, 14]);
}

#[test]
fn predecessor_bucket_keeps_a_level_until_all_sources_leave_it() {
    let positions = [
        BlockPos::new(0, 0, 0),
        BlockPos::new(2, 0, 0),
        BlockPos::new(1, 0, 0),
    ];
    let mut network = wire_network(&[15, 15], &positions, &[(0, 2), (1, 2)], &[(0, 0), (1, 1)]);
    set_ordered_targets(
        &mut network,
        &[
            vec![OrderedWireTarget::wire(NetworkWireId(2))],
            vec![OrderedWireTarget::wire(NetworkWireId(2))],
            Vec::new(),
        ],
    );
    let mut runtime = ready_runtime(&network, &PositionMap::new());
    assert_eq!(wire_powers(&runtime, &network), [15, 15, 14]);
    assert_eq!(runtime.predecessor_count(NetworkWireId(2), 14), Some(2));

    runtime.update_source_deferred(&network, NetworkNodeId(0), 0).unwrap();
    runtime.propagate_ordered(&network, NetworkWireId(0)).unwrap();
    assert_eq!(wire_powers(&runtime, &network), [0, 15, 14]);
    assert_eq!(runtime.predecessor_count(NetworkWireId(2), 14), Some(1));
    assert_ne!(runtime.predecessor_mask(NetworkWireId(2)).unwrap() & (1 << 14), 0);

    runtime.update_source_deferred(&network, NetworkNodeId(1), 0).unwrap();
    runtime.propagate_ordered(&network, NetworkWireId(1)).unwrap();
    assert_eq!(wire_powers(&runtime, &network), [0, 0, 0]);
    assert_eq!(runtime.predecessor_count(NetworkWireId(2), 14), Some(0));
    assert_eq!(runtime.predecessor_mask(NetworkWireId(2)).unwrap() & (1 << 14), 0);
}

#[test]
fn comparator_output_override_initializes_runtime_output() {
    let network = semantic_network(&[(NetworkNodeKind::Comparator, 3)]);
    let comparator_pos = network.node(NetworkNodeId(0)).unwrap().pos;
    let mut overrides = PositionMap::new();
    overrides.insert(comparator_pos, 11);
    let runtime = ready_runtime(&network, &overrides);

    assert_eq!(runtime.output(NetworkNodeId(0)), Some(11));
}

#[test]
fn initial_wire_mismatch_is_reported_in_slot_order() {
    let positions = [BlockPos::new(0, 0, 0), BlockPos::new(1, 0, 0)];
    let mut network = wire_network(&[0], &positions, &[(0, 1)], &[]);
    network.wires.initial_power = vec![7, 5];
    let runtime = ready_runtime(&network, &PositionMap::new());

    assert_eq!(
        runtime.initial_wire_transitions(&network),
        [
            WirePowerTransition {
                wire: NetworkWireId(0),
                old_power: 7,
                new_power: 0,
            },
            WirePowerTransition {
                wire: NetworkWireId(1),
                old_power: 5,
                new_power: 0,
            },
        ]
    );
}

fn chain_state() -> (NetworkState, [BlockPos; 3]) {
    let positions = [
        BlockPos::new(0, 0, 0),
        BlockPos::new(5, 0, 0),
        BlockPos::new(10, 0, 0),
    ];
    let network = wire_network(&[0], &positions, &[(0, 1), (1, 2)], &[(0, 0)]);
    let runtime = ready_runtime(&network, &PositionMap::new());
    (NetworkState::new(network, runtime), positions)
}

#[test]
fn network_state_propagates_from_a_wire_position() {
    let (mut state, positions) = chain_state();
    state.update_source_deferred(BlockPos::new(100, 0, 0), 15);
    assert_eq!(state.runtime().output(NetworkNodeId(0)), Some(15));
    let mut events = Vec::new();
    assert_eq!(state.propagate_ordered(positions[0], &mut events), Ok(true));
    assert_eq!(
        events,
        [OrderedWireEvent::Wire(WirePowerTransition {
            wire: NetworkWireId(0),
            old_power: 0,
            new_power: 15,
        })]
    );
    assert_eq!(state.runtime().wire_power(NetworkWireId(0)), Some(15));

    let mut untouched = Vec::new();
    assert_eq!(state.propagate_ordered(BlockPos::new(50, 50, 50), &mut untouched), Ok(false));
    assert!(untouched.is_empty());
}

#[test]
fn update_without_a_node_changes_nothing() {
    let (mut state, _) = chain_state();
    state.update_source_deferred(BlockPos::new(7, 7, 7), 15);
    assert_eq!(state.runtime().output(NetworkNodeId(0)), Some(0));
}

#[test]
fn disabling_a_position_spreads_over_the_wire_graph() {
    let (mut state, positions) = chain_state();
    assert_eq!(state.disable_positions(&[positions[2]]), 3);
    assert_eq!(state.disabled_wires(), &[true, true, true]);
    assert_eq!(state.disabled_wire_count(), 3);
    assert!(state.is_disabled(NetworkWireId(0)));
    assert!(!state.is_disabled(NetworkWireId(9)));
    assert_eq!(state.disable_positions(&[positions[0]]), 0);
    assert_eq!(state.disabled_wire_count(), 3);

    let mut events = Vec::new();
    assert_eq!(state.propagate_ordered(positions[0], &mut events), Ok(false));
    assert!(events.is_empty());
}

#[test]
fn disabling_far_from_every_wire_disables_nothing() {
    let (mut state, _) = chain_state();
    assert_eq!(state.disable_positions(&[BlockPos::new(-40, 0, 0)]), 0);
    assert_eq!(state.disabled_wires(), &[false, false, false]);
    assert_eq!(state.disabled_wire_count(), 0);
}

#[test]
fn source_without_a_node_disables_the_wires_it_touches() {
    let (mut state, positions) = chain_state();
    state.synchronize_source(positions[1].offset(0, 1, 0), 15);
    assert_eq!(state.disabled_wires(), &[true, true, true]);
    assert_eq!(state.runtime().output(NetworkNodeId(0)), Some(0));

    let (mut fresh, _) = chain_state();
    fresh.synchronize_source(BlockPos::new(100, 0, 0), 9);
    assert_eq!(fresh.runtime().output(NetworkNodeId(0)), Some(9));
    assert_eq!(fresh.disabled_wire_count(), 0);
}

#[test]
fn wire_transitions_resolve_to_positions_and_observer_ranges() {
    let (state, positions) = chain_state();
    let transition = WirePowerTransition {
        wire: NetworkWireId(1),
        old_power: 3,
        new_power: 9,
    };
    assert_eq!(
        state.resolve_wire_transition(transition),
        Some(CompiledWireTransition {
            wire: 1,
            pos: positions[1],
            old_power: 3,
            new_power: 9,
            observer_start: 0,
            observer_count: 0,
        })
    );
    let stale = WirePowerTransition {
        wire: NetworkWireId(3),
        old_power: 0,
        new_power: 1,
    };
    assert_eq!(state.resolve_wire_transition(stale), None);
}

fn feeding(targets: &[Vec<NetworkNodeId>]) -> (Vec<u32>, Vec<NetworkWireTarget>) {
    let mut offsets = vec![0u32];
    let mut values = Vec::new();
    for list in targets {
        for target in list {
            values.push(NetworkWireTarget { target: *target, kind: NetworkInputKind::Default });
        }
        offsets.push(values.len() as u32);
    }
    (offsets, values)
}

#[test]
fn affected_nodes_follow_wires_from_the_changed_block() {
    let positions = [
        BlockPos::new(0, 0, 0),
        BlockPos::new(5, 0, 0),
        BlockPos::new(10, 0, 0),
    ];
    let mut network = wire_network(&[0, 0, 0], &positions, &[(0, 1), (1, 2)], &[(0, 0)]);
    let (offsets, targets) = feeding(&[vec![NetworkNodeId(2)], Vec::new(), vec![NetworkNodeId(1)]]);
    network.wires.target_offsets = offsets;
    network.wires.targets = targets;
    assert!(network_is_ready(&network));

    assert_eq!(network.affected_nodes(positions[0]), [NetworkNodeId(1), NetworkNodeId(2)]);
    assert_eq!(
        network.affected_nodes(BlockPos::new(100, 0, 0)),
        [NetworkNodeId(0), NetworkNodeId(1), NetworkNodeId(2)]
    );
    assert_eq!(network.affected_nodes(BlockPos::new(101, 0, 0)), [NetworkNodeId(1)]);
    assert!(network.affected_nodes(BlockPos::new(-50, 0, 0)).is_empty());
}

#[test]
fn affected_nodes_stop_at_the_signal_range() {
    let positions = (0..20).map(|index| BlockPos::new(index * 5, 0, 0)).collect::<Vec<_>>();
    let edges = (0..19).map(|index| (index, index + 1)).collect::<Vec<_>>();
    let mut network = wire_network(&[0, 0], &positions, &edges, &[]);
    let mut lists = vec![Vec::new(); 20];
    lists[14] = vec![NetworkNodeId(0)];
    lists[15] = vec![NetworkNodeId(1)];
    let (offsets, targets) = feeding(&lists);
    network.wires.target_offsets = offsets;
    network.wires.targets = targets;
    assert!(network_is_ready(&network));

    assert_eq!(network.affected_nodes(positions[0]), [NetworkNodeId(0)]);
    assert_eq!(
        network.affected_nodes(positions[1]),
        [NetworkNodeId(0), NetworkNodeId(1)]
    );
}

#[test]
fn each_node_depends_on_its_own_block() {
    let network = semantic_network(&[
        (NetworkNodeKind::Lever, 0),
        (NetworkNodeKind::Lever, 0),
    ]);
    assert_eq!(network.dependents(BlockPos::new(100, 0, 0)), [NetworkNodeId(0)]);
    assert_eq!(network.dependents(BlockPos::new(101, 0, 0)), [NetworkNodeId(1)]);
    assert!(network.dependents(BlockPos::new(102, 0, 0)).is_empty());
}

#[test]
fn direct_fast_targets_are_indexed_by_source_once_each() {
    let make = |index: u32, kind: NetworkNodeKind, fast: bool| {
        NetworkNode::new(
            NetworkNodeId(index),
            BlockPos::new(100 + index as i32, 0, 0),
            BlockStateId(index),
            kind,
            0,
            None,
            NetworkInputPower::zero(),
            None,
            fast,
        )
    };
    let nodes = vec![
        make(0, NetworkNodeKind::Lever, false),
        make(1, NetworkNodeKind::Consumer, true),
        make(2, NetworkNodeKind::Lever, false),
    ];
    let mut positions = PositionMap::new();
    for node in &nodes {
        positions.insert(node.pos, node.id);
    }
    let draft = |source: u32, target: u32, attenuation: u8| EdgeDraft {
        source: NetworkNodeId(source),
        target: NetworkNodeId(target),
        kind: NetworkInputKind::Default,
        attenuation,
        source_wire: None,
        target_wire: None,
    };
    let network = StaticNetwork::finalize(NetworkBuildParts {
        nodes,
        positions,
        drafts: vec![draft(2, 1, 0), draft(0, 1, 3), draft(0, 2, 0), draft(0, 1, 0)],
        position_dependencies: vec![(BlockPos::new(7, 7, 7), NetworkNodeId(2))],
        input_offsets: vec![0; 4],
        input_ports: Vec::new(),
        wires: empty_wires(),
        build_stats: NetworkBuildStats::zero(),
    });
    assert_eq!(network.direct_fast_targets(NetworkNodeId(0)), [NetworkNodeId(1)]);
    assert_eq!(network.direct_fast_targets(NetworkNodeId(1)), []);
    assert_eq!(network.direct_fast_targets(NetworkNodeId(2)), [NetworkNodeId(1)]);
    assert_eq!(network.edges_from(NetworkNodeId(0)).len(), 3);
    assert_eq!(network.dependents(BlockPos::new(7, 7, 7)), [NetworkNodeId(2)]);
}

#[test]
fn topology_changes_that_miss_the_network_keep_it() {
    let (mut state, positions) = chain_state();
    assert!(!state.apply_topology_changes(false, &[positions[0]], &[]));
    assert!(!state.apply_topology_changes(true, &[positions[0]], &[]));
    assert!(state.apply_topology_changes(false, &[positions[0]], &[positions[0]]));
    assert_eq!(state.disabled_wire_count(), 0);
}

#[test]
fn origin_already_at_its_target_power_records_nothing() {
    let positions = [BlockPos::new(0, 0, 0), BlockPos::new(1, 0, 0)];
    let mut network = wire_network(&[0], &positions, &[(0, 1)], &[(0, 0)]);
    set_ordered_targets(
        &mut network,
        &[vec![OrderedWireTarget::wire(NetworkWireId(1))], Vec::new()],
    );
    let mut runtime = ready_runtime(&network, &PositionMap::new());

    let events = runtime.propagate_ordered(&network, NetworkWireId(0)).unwrap();
    assert!(events.is_empty());
    assert_eq!(wire_powers(&runtime, &network), [0, 0]);
}

#[test]
fn disabled_origin_fails_with_itself_and_keeps_the_powers() {
    let positions = [BlockPos::new(0, 0, 0), BlockPos::new(1, 0, 0)];
    let mut network = wire_network(&[0], &positions, &[(0, 1)], &[(0, 0)]);
    set_ordered_targets(
        &mut network,
        &[vec![OrderedWireTarget::wire(NetworkWireId(1))], Vec::new()],
    );
    let mut runtime = ready_runtime(&network, &PositionMap::new());
    runtime.update_source_deferred(&network, NetworkNodeId(0), 15).unwrap();
    let mut events = Vec::new();

    assert_eq!(
        runtime.propagate_ordered_with_disabled_into(&network, NetworkWireId(0), &[true, false], &mut events),
        Err(OrderedPropagationError::DisabledWireCrossing(NetworkWireId(0)))
    );
    assert!(events.is_empty());
    assert_eq!(wire_powers(&runtime, &network), [0, 0]);
}

#[test]
fn origin_without_an_update_list_records_only_its_own_change() {
    let positions = [BlockPos::new(0, 0, 0), BlockPos::new(1, 0, 0)];
    let network = wire_network(&[0], &positions, &[(0, 1)], &[(0, 0)]);
    let mut runtime = ready_runtime(&network, &PositionMap::new());
    runtime.update_source_deferred(&network, NetworkNodeId(0), 12).unwrap();

    let events = runtime.propagate_ordered(&network, NetworkWireId(0)).unwrap();
    assert_eq!(
        events,
        [OrderedWireEvent::Wire(WirePowerTransition {
            wire: NetworkWireId(0),
            old_power: 0,
            new_power: 12,
        })]
    );
    assert_eq!(wire_powers(&runtime, &network), [12, 0]);
}
