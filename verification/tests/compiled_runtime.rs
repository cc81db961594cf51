use redstone_java::compiled::compiled_runtime::{CompiledRuntime, NetworkRebuildMissing, StaleReference};
use redstone_java::compiled::dense::DenseWireGraph;
use redstone_java::compiled::executor::{CompiledExecutor, ExecutionConfig, ExecutionMode, ExecutorError, PrepareStep};
use redstone_java::compiled::frontend::{NodeKind, TopologySignature};
use redstone_java::compiled::graph::{BlockReading, CompiledGraph};
use redstone_java::compiled::invalidation::InvalidationPlan;
use redstone_java::compiled::network::{
    NetworkBuildStats, NetworkInputPower, NetworkNode, NetworkNodeId, NetworkNodeKind, NetworkWireId,
};
use redstone_java::compiled::runtime::{network_is_ready, NetworkRuntime};
use redstone_java::compiled::state::NetworkState;
use redstone_java::compiled::static_network::{NetworkBuildParts, StaticNetwork};
use redstone_java::position::{BlockKindId, BlockPos, BlockStateId};
use redstone_java::posmap::PositionMap;

fn repeater(pos: BlockPos, state: u32, input: BlockPos) -> BlockReading {
    BlockReading {
        pos,
        state: BlockStateId(state),
        signature: Some(TopologySignature {
            kind: BlockKindId(7),
            node_kind: NodeKind::Repeater,
            conductor: false,
            shape_hash: 1,
        }),
        dependencies: vec![input],
    }
}

fn wires(positions: &[BlockPos], initial_power: u8) -> DenseWireGraph {
    let count = positions.len();
    let mut position_index = PositionMap::new();
    for (index, pos) in positions.iter().enumerate() {
        position_index.insert(*pos, NetworkWireId(index as u32));
    }
    DenseWireGraph {
        positions: positions.to_vec(),
        states: vec![BlockStateId(0); count],
        initial_power: vec![initial_power; count],
        position_index,
        dependent_offsets: vec![0; count + 1],
        dependents: Vec::new(),
        predecessor_offsets: vec![0; count + 1],
        predecessors: Vec::new(),
        source_offsets: vec![0; count + 1],
        sources: Vec::new(),
        target_offsets: vec![0; count + 1],
        targets: Vec::new(),
        ordered_target_offsets: vec![0; count + 1],
        ordered_targets: Vec::new(),
        ordered_boundaries: Vec::new(),
        observer_offsets: vec![0; count + 1],
        observers: Vec::new(),
        source_anchors: PositionMap::new(),
    }
}

fn network(lever_count: usize, wire_positions: &[BlockPos], initial_power: u8) -> NetworkState {
    let mut positions = PositionMap::new();
    let mut nodes = Vec::new();
    for index in 0..lever_count {
        let id = NetworkNodeId(index as u32);
        let pos = BlockPos::new(100 + index as i32, 0, 0);
        positions.insert(pos, id);
        nodes.push(NetworkNode::new(
            id,
            pos,
            BlockStateId(index as u32),
            NetworkNodeKind::Lever,
            0,
            None,
            NetworkInputPower::zero(),
            None,
            false,
        ));
    }
    let network = StaticNetwork::finalize(NetworkBuildParts {
        nodes,
        positions,
        drafts: Vec::new(),
        position_dependencies: Vec::new(),
        input_offsets: vec![0; lever_count + 1],
        input_ports: Vec::new(),
        wires: wires(wire_positions, initial_power),
        build_stats: NetworkBuildStats::zero(),
    });
    assert!(network_is_ready(&network));
    let runtime = NetworkRuntime::new(&network, &PositionMap::new());
    NetworkState::new(network, runtime)
}

fn single_repeater_runtime(network_state: Option<NetworkState>) -> CompiledRuntime {
    let graph = CompiledGraph::compile(&[repeater(BlockPos::zero(), 10, BlockPos::new(0, 0, -1))]);
    CompiledRuntime::compile(graph, network_state).unwrap()
}

#[test]
fn state_only_plan_records_states_and_counts_nothing() {
    let mut runtime = single_repeater_runtime(None);
    let plan = InvalidationPlan::StateOnly { state_changes: vec![(BlockPos::zero(), BlockStateId(11))] };
    let sync = runtime.synchronize(plan, &[], None, &[None]).unwrap();
    assert!(!sync.full_recompile);
    assert_eq!(sync.recompiled_nodes, 0);
    let id = runtime.graph().node_id(BlockPos::zero()).unwrap();
    assert_eq!(runtime.graph().node(id).unwrap().state, BlockStateId(11));
    assert_eq!(runtime.partial_recompilations(), 0);
    assert_eq!(runtime.recompiled_nodes(), 0);
}

#[test]
fn local_plan_rebuilds_the_planned_positions() {
    let mut runtime = single_repeater_runtime(None);
    let new_input = BlockPos::new(0, 0, 1);
    let plan = InvalidationPlan::Local {
        state_changes: Vec::new(),
        topology_positions: vec![BlockPos::zero()],
        network_topology_positions: Vec::new(),
        positions: vec![BlockPos::zero()],
    };
    let world = [repeater(BlockPos::zero(), 12, new_input)];
    let sync = runtime.synchronize(plan, &world, None, &[]).unwrap();
    assert!(!sync.full_recompile);
    assert_eq!(sync.recompiled_nodes, 1);
    assert_eq!(runtime.partial_recompilations(), 1);
    assert_eq!(runtime.recompiled_nodes(), 1);
    assert_eq!(runtime.graph().dependents(new_input), vec![BlockPos::zero()]);
    assert_eq!(runtime.edge_count(), 1);
}

#[test]
fn local_plan_with_nothing_to_rebuild_is_no_partial_recompilation() {
    let mut runtime = single_repeater_runtime(None);
    let plan = InvalidationPlan::Local {
        state_changes: Vec::new(),
        topology_positions: vec![BlockPos::new(50, 0, 0)],
        network_topology_positions: Vec::new(),
        positions: Vec::new(),
    };
    let sync = runtime.synchronize(plan, &[], None, &[]).unwrap();
    assert_eq!(sync.recompiled_nodes, 0);
    assert_eq!(runtime.partial_recompilations(), 0);
}

#[test]
fn full_plan_compiles_the_graph_anew() {
    let mut runtime = single_repeater_runtime(None);
    let world = [
        repeater(BlockPos::new(3, 0, 0), 10, BlockPos::new(2, 0, 0)),
        repeater(BlockPos::new(6, 0, 0), 10, BlockPos::new(5, 0, 0)),
    ];
    let plan = InvalidationPlan::Full { state_changes: Vec::new(), network_topology_positions: Vec::new() };
    let sync = runtime.synchronize(plan, &world, None, &[]).unwrap();
    assert!(sync.full_recompile);
    assert_eq!(sync.recompiled_nodes, 2);
    assert_eq!(runtime.full_recompilations(), 1);
    assert_eq!(runtime.recompiled_nodes(), 2);
    assert_eq!(runtime.graph().node_id(BlockPos::zero()), None);
    assert_eq!(runtime.node_count(), 2);
}

#[test]
fn network_topology_change_installs_the_rebuilt_network() {
    let mut runtime = single_repeater_runtime(Some(network(1, &[], 0)));
    assert_eq!(runtime.node_count(), 1);
    let plan = || InvalidationPlan::Local {
        state_changes: Vec::new(),
        topology_positions: vec![BlockPos::new(50, 0, 0)],
        network_topology_positions: vec![BlockPos::new(50, 0, 0)],
        positions: Vec::new(),
    };
    assert_eq!(runtime.synchronize(plan(), &[], None, &[]), Err(NetworkRebuildMissing));

    let mut runtime = single_repeater_runtime(Some(network(1, &[], 0)));
    let sync = runtime.synchronize(plan(), &[], Some(network(2, &[BlockPos::new(9, 9, 9)], 0)), &[]).unwrap();
    assert_eq!(sync.recompiled_nodes, 3);
    assert_eq!(runtime.dense_full_rebuilds(), 1);
    assert_eq!(runtime.partial_recompilations(), 1);
    assert_eq!(runtime.node_count(), 3);
    assert_eq!(runtime.wire_index(BlockPos::new(9, 9, 9)), Some(0));
}

#[test]
fn changes_that_miss_the_network_keep_it() {
    let mut runtime = single_repeater_runtime(Some(network(1, &[], 0)));
    let plan = InvalidationPlan::Full { state_changes: Vec::new(), network_topology_positions: Vec::new() };
    let sync = runtime.synchronize(plan, &[], None, &[]).unwrap();
    assert!(sync.full_recompile);
    assert_eq!(sync.recompiled_nodes, 0);
    assert_eq!(runtime.dense_full_rebuilds(), 0);
    assert_eq!(runtime.node_count(), 1);
}

#[test]
fn source_outputs_reach_the_network() {
    let mut runtime = single_repeater_runtime(Some(network(1, &[], 0)));
    let lever = BlockPos::new(100, 0, 0);
    let plan = InvalidationPlan::StateOnly { state_changes: vec![(lever, BlockStateId(3))] };
    runtime.synchronize(plan, &[], None, &[Some(15)]).unwrap();
    assert_eq!(runtime.network().unwrap().runtime().output(NetworkNodeId(0)), Some(15));
    runtime.update_network_source_deferred(lever, 4);
    assert_eq!(runtime.network().unwrap().runtime().output(NetworkNodeId(0)), Some(4));
}

#[test]
fn compile_refuses_a_network_off_its_recorded_powers() {
    let graph = CompiledGraph::compile(&[]);
    let wire_positions = [BlockPos::new(1, 2, 3), BlockPos::new(4, 5, 6)];
    let error = CompiledRuntime::compile(graph, Some(network(0, &wire_positions, 7))).err().unwrap();
    assert_eq!(error.pos, BlockPos::new(1, 2, 3));
    assert_eq!(error.world, 7);
    assert_eq!(error.compiled, 0);
    assert_eq!(error.mismatches, 2);
}

#[test]
fn stale_references_without_a_network() {
    let mut runtime = single_repeater_runtime(None);
    assert_eq!(runtime.resolve_wire_pos(0), Err(StaleReference::Wire));
    assert_eq!(runtime.resolve_wire_observer(0), Err(StaleReference::Observer));
    assert_eq!(runtime.resolve_boundary(0), Err(StaleReference::Boundary));
    assert_eq!(runtime.wire_index(BlockPos::zero()), None);
    let mut events = Vec::new();
    assert_eq!(runtime.propagate_ordered(BlockPos::zero(), &mut events), Ok(false));
    runtime.record_ordered_events(3, 2);
    assert_eq!(runtime.compiled_updates(), 3);
    assert_eq!(runtime.interpreted_updates(), 2);
    runtime.record_ordered_events(u64::MAX, 0);
    assert_eq!(runtime.compiled_updates(), u64::MAX);
}

#[test]
fn wire_positions_resolve_with_a_network() {
    let wire_positions = [BlockPos::new(1, 2, 3)];
    let runtime = single_repeater_runtime(Some(network(0, &wire_positions, 0)));
    assert_eq!(runtime.resolve_wire_pos(0), Ok(BlockPos::new(1, 2, 3)));
    assert_eq!(runtime.resolve_wire_pos(1), Err(StaleReference::Wire));
    assert_eq!(runtime.wire_index(BlockPos::new(1, 2, 3)), Some(0));
}

fn comparator_network(pos_index: i32) -> NetworkState {
    let mut positions = PositionMap::new();
    let pos = BlockPos::new(100 + pos_index, 0, 0);
    positions.insert(pos, NetworkNodeId(0));
    let nodes = vec![NetworkNode::new(
        NetworkNodeId(0),
        pos,
        BlockStateId(0),
        NetworkNodeKind::Comparator,
        0,
        None,
        NetworkInputPower::zero(),
        None,
        false,
    )];
    let network = StaticNetwork::finalize(NetworkBuildParts {
        nodes,
        positions,
        drafts: Vec::new(),
        position_dependencies: Vec::new(),
        input_offsets: vec![0; 2],
        input_ports: Vec::new(),
        wires: wires(&[], 0),
        build_stats: NetworkBuildStats::zero(),
    });
    assert!(network_is_ready(&network));
    let runtime = NetworkRuntime::new(&network, &PositionMap::new());
    NetworkState::new(network, runtime)
}

#[test]
fn replacing_comparator_outputs_updates_the_prepared_network_source() {
    let pos = BlockPos::new(100, 0, 0);
    let graph = CompiledGraph::compile(&[]);
    let mut runtime = CompiledRuntime::compile(graph, Some(comparator_network(0))).unwrap();
    let output = |runtime: &CompiledRuntime| runtime.network().unwrap().runtime().output(NetworkNodeId(0));
    assert_eq!(output(&runtime), Some(0));

    runtime.replace_comparator_outputs(&[], &[(pos, 15)]);
    assert_eq!(output(&runtime), Some(15));

    runtime.replace_comparator_outputs(&[(pos, 15)], &[]);
    assert_eq!(output(&runtime), Some(0));
}

#[test]
fn unchanged_comparator_outputs_are_not_resent() {
    let pos = BlockPos::new(100, 0, 0);
    let graph = CompiledGraph::compile(&[]);
    let mut runtime = CompiledRuntime::compile(graph, Some(comparator_network(0))).unwrap();
    runtime.update_network_source_deferred(pos, 3);
    // The old and new outputs agree, so nothing is sent and the level stays.
    runtime.replace_comparator_outputs(&[(pos, 9)], &[(pos, 9)]);
    assert_eq!(runtime.network().unwrap().runtime().output(NetworkNodeId(0)), Some(3));
}

#[test]
fn graph_compiles_wire_nodes_and_real_inputs() {
    let wire = Some(TopologySignature { kind: BlockKindId(2), node_kind: NodeKind::Wire, conductor: false, shape_hash: 0 });
    let block = Some(TopologySignature {
        kind: BlockKindId(3),
        node_kind: NodeKind::ConstantSource,
        conductor: true,
        shape_hash: 0,
    });
    let world = [
        BlockReading {
            pos: BlockPos::new(0, 0, 0),
            state: BlockStateId(1),
            signature: wire,
            dependencies: vec![BlockPos::new(-1, 0, 0), BlockPos::new(1, 0, 0)],
        },
        BlockReading {
            pos: BlockPos::new(1, 0, 0),
            state: BlockStateId(1),
            signature: wire,
            dependencies: vec![BlockPos::new(0, 0, 0)],
        },
        BlockReading { pos: BlockPos::new(-1, 0, 0), state: BlockStateId(2), signature: block, dependencies: Vec::new() },
    ];
    let runtime = CompiledRuntime::compile(CompiledGraph::compile(&world), None).unwrap();

    assert_eq!(runtime.node_count(), 3);
    assert!(runtime.edge_count() >= 2);
}

#[test]
fn forced_compiled_mode_rejects_non_fixed_wire_state() {
    let mut executor = CompiledExecutor::new();
    executor
        .configure(ExecutionConfig {
            requested_mode: ExecutionMode::Compiled,
            experimental_redstone: false,
            trace_enabled: false,
            record_events: false,
        })
        .unwrap();
    assert_eq!(executor.prepare(), Ok(PrepareStep::Compile));

    // A wire recorded at power 15 with nothing powering it.
    let outcome = CompiledRuntime::compile(CompiledGraph::compile(&[]), Some(network(0, &[BlockPos::zero()], 15)));
    let mismatch = outcome.err().unwrap();
    assert_eq!((mismatch.pos, mismatch.world, mismatch.compiled, mismatch.mismatches), (BlockPos::zero(), 15, 0, 1));
    let detail = format!(
        "initial wire state is not a fixed point at {:?}: world={}, compiled={}, mismatches={}",
        mismatch.pos, mismatch.world, mismatch.compiled, mismatch.mismatches
    );
    let error = executor.finish_prepare(Err(detail)).unwrap_err();
    match error {
        ExecutorError::CompileFailed(message) => assert!(message.contains("not a fixed point")),
        other => panic!("unexpected error: {other:?}"),
    }
}
