use redstone_java::compiled::closure::{BlockFlags, WireView};
use redstone_java::compiled::frontend::{NodeKind, TopologySignature};
use redstone_java::compiled::graph::{BlockReading, CompiledGraph};
use redstone_java::compiled::invalidation::{
    affected_positions, plan, sort_changes, InvalidationPlan, SignedChange, FULL_RECOMPILE_CHANGE_LIMIT,
    LOCAL_RECOMPILE_PERCENT,
};
use redstone_java::position::{BlockKindId, BlockPos, BlockStateId};
use redstone_java::posmap::PositionMap;

fn air_world() -> WireView {
    WireView { blocks: PositionMap::new() }
}

fn signature(kind: u32, node_kind: NodeKind, shape_hash: u64) -> Option<TopologySignature> {
    Some(TopologySignature { kind: BlockKindId(kind), node_kind, conductor: false, shape_hash })
}

fn wire(shape_hash: u64) -> Option<TopologySignature> {
    signature(2, NodeKind::Wire, shape_hash)
}

fn source() -> Option<TopologySignature> {
    signature(5, NodeKind::ConstantSource, 0)
}

fn change(
    pos: BlockPos,
    new_state: u32,
    old_signature: Option<TopologySignature>,
    new_signature: Option<TopologySignature>,
) -> SignedChange {
    SignedChange { pos, new_state: BlockStateId(new_state), old_signature, new_signature }
}

fn reading(pos: BlockPos, state: u32, signature: Option<TopologySignature>) -> BlockReading {
    BlockReading { pos, state: BlockStateId(state), signature, dependencies: Vec::new() }
}

#[test]
fn topology_dirty_limit_switches_after_4096_positions() {
    let graph = CompiledGraph::compile(&[]);
    for (count, expect_full) in [(FULL_RECOMPILE_CHANGE_LIMIT, false), (FULL_RECOMPILE_CHANGE_LIMIT + 1, true)] {
        let changes: Vec<SignedChange> =
            (0..count).map(|index| change(BlockPos::new(index as i32, 0, 0), 2, wire(1), wire(2))).collect();
        let invalidation = plan(&graph, sort_changes(&changes), true, &air_world());
        match (invalidation, expect_full) {
            (InvalidationPlan::Local { topology_positions, network_topology_positions, positions, .. }, false) => {
                assert_eq!(topology_positions.len(), count);
                assert!(network_topology_positions.is_empty());
                assert!(positions.is_empty());
            }
            (InvalidationPlan::Full { .. }, true) => {}
            (actual, _) => panic!("unexpected invalidation at {count} positions: {actual:?}"),
        }
    }
}

#[test]
fn affected_node_ratio_switches_only_above_25_percent() {
    for (node_count, expect_full) in [(28usize, false), (27usize, true)] {
        let world: Vec<BlockReading> = (0..node_count)
            .map(|index| reading(BlockPos::new(100 + index as i32 * 3, 0, 0), 5, source()))
            .collect();
        let graph = CompiledGraph::compile(&world);
        assert_eq!(graph.node_count(), node_count);
        let changes = [change(BlockPos::zero(), 5, None, source())];

        let invalidation = plan(&graph, sort_changes(&changes), false, &air_world());

        match (invalidation, expect_full) {
            (InvalidationPlan::Local { positions, .. }, false) => {
                assert_eq!(positions.len(), 7);
                assert_eq!(positions.len() * 100, node_count * LOCAL_RECOMPILE_PERCENT);
            }
            (InvalidationPlan::Full { .. }, true) => {
                assert!(7 * 100 > node_count * LOCAL_RECOMPILE_PERCENT);
            }
            (actual, _) => panic!("unexpected invalidation for {node_count} nodes: {actual:?}"),
        }
    }
}

#[test]
fn state_only_batch_above_topology_limit_stays_state_only() {
    let graph = CompiledGraph::compile(&[]);
    let changes: Vec<SignedChange> = (0..=FULL_RECOMPILE_CHANGE_LIMIT)
        .map(|index| change(BlockPos::new(index as i32, 0, 0), 3, wire(1), wire(1)))
        .collect();
    let InvalidationPlan::StateOnly { state_changes } = plan(&graph, sort_changes(&changes), false, &air_world()) else {
        panic!("state-only changes unexpectedly invalidated topology");
    };
    assert!(state_changes.is_empty());
}

#[test]
fn wire_shape_changes_keep_the_dense_boundary_superset() {
    let graph = CompiledGraph::compile(&[reading(BlockPos::zero(), 2, wire(2))]);
    let changes = [change(BlockPos::zero(), 2, wire(1), wire(2))];
    // The wire closure starts at the changed wire itself.
    match plan(&graph, sort_changes(&changes), false, &air_world()) {
        InvalidationPlan::Local { topology_positions, network_topology_positions, .. } => {
            assert_eq!(topology_positions.len(), 1);
            assert!(network_topology_positions.is_empty());
        }
        InvalidationPlan::Full { network_topology_positions, .. } => assert!(network_topology_positions.is_empty()),
        InvalidationPlan::StateOnly { .. } => panic!("wire shape change was not classified as fallback topology"),
    }
}

#[test]
fn repeater_orientation_change_invalidates_dense_topology() {
    let south = signature(7, NodeKind::Repeater, 2);
    let north = signature(7, NodeKind::Repeater, 1);
    let graph = CompiledGraph::compile(&[reading(BlockPos::zero(), 8, south)]);
    let changes = [change(BlockPos::zero(), 8, north, south)];
    match plan(&graph, sort_changes(&changes), false, &air_world()) {
        InvalidationPlan::Local { network_topology_positions, .. }
        | InvalidationPlan::Full { network_topology_positions, .. } => {
            assert_eq!(network_topology_positions, vec![BlockPos::zero()]);
        }
        InvalidationPlan::StateOnly { .. } => panic!("repeater orientation change did not invalidate dense topology"),
    }
}

#[test]
fn affected_positions_take_neighbours_readers_and_the_wire_closure() {
    let changed = BlockPos::new(10, 0, 0);
    let reader = BlockPos::new(20, 0, 0);
    let far_reader = BlockPos::new(40, 0, 0);
    let world = vec![
        BlockReading {
            pos: reader,
            state: BlockStateId(1),
            signature: signature(7, NodeKind::Repeater, 1),
            dependencies: vec![changed],
        },
        BlockReading {
            pos: far_reader,
            state: BlockStateId(1),
            signature: signature(7, NodeKind::Repeater, 1),
            dependencies: vec![BlockPos::new(14, 0, 0)],
        },
    ];
    let graph = CompiledGraph::compile(&world);
    // A line of wires starts inside the cube around the change and runs east.
    let mut blocks = PositionMap::new();
    for x in 12..15 {
        blocks.insert(BlockPos::new(x, 0, 0), BlockFlags { known: true, wire: true, conductor: false });
    }
    let view = WireView { blocks };
    assert_eq!(view.wire_neighbors(BlockPos::new(13, 0, 0)), vec![BlockPos::new(12, 0, 0), BlockPos::new(14, 0, 0)]);
    let affected = affected_positions(&graph, &view, &[changed]);
    let mut expected = vec![
        changed,
        BlockPos::new(9, 0, 0),
        BlockPos::new(11, 0, 0),
        BlockPos::new(10, -1, 0),
        BlockPos::new(10, 1, 0),
        BlockPos::new(10, 0, -1),
        BlockPos::new(10, 0, 1),
        reader,
        BlockPos::new(12, 0, 0),
        BlockPos::new(13, 0, 0),
        BlockPos::new(14, 0, 0),
        far_reader,
    ];
    expected.sort_by_key(|pos| (pos.x, pos.y, pos.z));
    assert_eq!(affected, expected);
}
