use redstone_java::compiled::frontend::{NodeKind, TopologySignature};
use redstone_java::compiled::graph::{BlockReading, CompiledGraph, NodeId};
use redstone_java::position::{BlockKindId, BlockPos, BlockStateId};

fn signature(kind: u32, node_kind: NodeKind, shape_hash: u64) -> TopologySignature {
    TopologySignature { kind: BlockKindId(kind), node_kind, conductor: false, shape_hash }
}

fn repeater_reading(pos: BlockPos, state: u32, facing_hash: u64, input: BlockPos) -> BlockReading {
    BlockReading {
        pos,
        state: BlockStateId(state),
        signature: Some(signature(7, NodeKind::Repeater, facing_hash)),
        dependencies: vec![input],
    }
}

#[test]
fn same_kind_rebuild_updates_reverse_dependencies_and_keeps_node_id() {
    let repeater_pos = BlockPos::zero();
    let old_input = BlockPos::new(0, 0, -1);
    let new_input = BlockPos::new(0, 0, 1);
    let world = vec![repeater_reading(repeater_pos, 10, 1, old_input)];
    let mut graph = CompiledGraph::compile(&world);
    let old_id = graph.node_id(repeater_pos).unwrap();
    let old_edges = graph.edge_count();
    assert_eq!(old_edges, 1);
    assert!(graph.dependents(old_input).contains(&repeater_pos));
    assert!(!graph.dependents(new_input).contains(&repeater_pos));

    let world = vec![repeater_reading(repeater_pos, 11, 2, new_input)];
    assert_eq!(graph.recompile_positions(&[repeater_pos], &world), 1);

    assert_eq!(graph.node_id(repeater_pos), Some(old_id));
    assert_eq!(graph.edge_count(), old_edges);
    assert!(graph.dependents(old_input).is_empty());
    assert!(graph.dependents(new_input).contains(&repeater_pos));
    assert_eq!(graph.node(old_id).unwrap().state, BlockStateId(11));
}

#[test]
fn slot_reuse_removes_stale_generation_dependencies() {
    let pos = BlockPos::zero();
    let old_input = BlockPos::new(0, 0, -1);
    let world = vec![repeater_reading(pos, 10, 1, old_input)];
    let mut graph = CompiledGraph::compile(&world);
    let old_id = graph.node_id(pos).unwrap();

    let world = vec![BlockReading {
        pos,
        state: BlockStateId(20),
        signature: Some(signature(9, NodeKind::ConstantSource, 0)),
        dependencies: Vec::new(),
    }];
    assert_eq!(graph.recompile_positions(&[pos], &world), 1);

    let new_id = graph.node_id(pos).unwrap();
    assert_eq!(new_id.slot, old_id.slot);
    assert_ne!(new_id.generation, old_id.generation);
    assert!(graph.node(old_id).is_none());
    assert_eq!(graph.edge_count(), 0);
    assert!(graph.dependents(old_input).is_empty());
    assert_eq!(graph.dependents(pos), vec![pos]);
}

#[test]
fn compile_skips_boundaries_and_blocks_without_signature() {
    let wire = BlockPos::new(1, 0, 0);
    let wall = BlockPos::new(2, 0, 0);
    let air = BlockPos::new(3, 0, 0);
    let world = vec![
        BlockReading {
            pos: wire,
            state: BlockStateId(1),
            signature: Some(signature(2, NodeKind::Wire, 5)),
            dependencies: vec![wall, wall, BlockPos::new(1, -1, 0)],
        },
        BlockReading {
            pos: wall,
            state: BlockStateId(3),
            signature: Some(signature(4, NodeKind::Boundary, 0)),
            dependencies: Vec::new(),
        },
        BlockReading { pos: air, state: BlockStateId(0), signature: None, dependencies: Vec::new() },
    ];
    let graph = CompiledGraph::compile(&world);
    assert_eq!(graph.node_count(), 1);
    assert!(graph.is_wire(wire));
    assert!(!graph.is_wire(wall));
    assert_eq!(graph.node_id(wall), None);
    assert_eq!(graph.node_id(air), None);
    // The repeated dependency is kept once, and the list is ascending.
    assert_eq!(graph.edge_count(), 2);
    let id = graph.node_id(wire).unwrap();
    assert_eq!(graph.node(id).unwrap().dependencies, vec![BlockPos::new(1, -1, 0), wall]);
    assert_eq!(graph.dependents(wall), vec![wire]);
}

#[test]
fn removed_block_frees_its_slot_and_rebuilds_its_readers() {
    let source = BlockPos::new(0, 0, 0);
    let reader = BlockPos::new(0, 0, 1);
    let world = vec![
        BlockReading {
            pos: source,
            state: BlockStateId(5),
            signature: Some(signature(3, NodeKind::ConstantSource, 0)),
            dependencies: Vec::new(),
        },
        repeater_reading(reader, 10, 1, source),
    ];
    let mut graph = CompiledGraph::compile(&world);
    assert_eq!(graph.node_count(), 2);
    assert_eq!(graph.touched_positions(&[source]), vec![source, reader]);

    let world = vec![
        BlockReading { pos: source, state: BlockStateId(0), signature: None, dependencies: Vec::new() },
        repeater_reading(reader, 10, 1, source),
    ];
    // The reader is rebuilt; the source leaves no node.
    assert_eq!(graph.recompile_positions(&[source], &world), 1);
    assert_eq!(graph.node_count(), 1);
    assert_eq!(graph.node_id(source), None);
    assert_eq!(graph.dependents(source), vec![reader]);

    // A new node takes the freed slot in its next generation.
    let world = vec![BlockReading {
        pos: BlockPos::new(5, 5, 5),
        state: BlockStateId(5),
        signature: Some(signature(3, NodeKind::ConstantSource, 0)),
        dependencies: Vec::new(),
    }];
    assert_eq!(graph.recompile_positions(&[BlockPos::new(5, 5, 5)], &world), 1);
    assert_eq!(graph.node_id(reader), Some(NodeId::new(1, 0)));
    assert_eq!(graph.node_id(BlockPos::new(5, 5, 5)), Some(NodeId::new(0, 1)));
    assert_eq!(graph.node_count(), 2);
}

#[test]
fn update_state_changes_only_the_node_at_the_position() {
    let a = BlockPos::new(0, 0, 0);
    let b = BlockPos::new(4, 0, 0);
    let world = vec![repeater_reading(a, 10, 1, b), repeater_reading(b, 12, 1, a)];
    let mut graph = CompiledGraph::compile(&world);
    graph.update_state(a, BlockStateId(99));
    graph.update_state(BlockPos::new(8, 8, 8), BlockStateId(1));
    let a_id = graph.node_id(a).unwrap();
    let b_id = graph.node_id(b).unwrap();
    assert_eq!(graph.node(a_id).unwrap().state, BlockStateId(99));
    assert_eq!(graph.node(b_id).unwrap().state, BlockStateId(12));
    assert_eq!(graph.edge_count(), 2);
}
