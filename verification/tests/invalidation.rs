use redstone_java::compiled::frontend::{NodeKind, TopologySignature};
use redstone_java::compiled::invalidation::{
    batch_plan, change_effect, early_plan, rebuilds_fully, sort_changes, ChangeEffect, PlanKind, SignedChange,
    FULL_RECOMPILE_CHANGE_LIMIT, LOCAL_RECOMPILE_PERCENT, WIRE_CLOSURE_DISTANCE,
};
use redstone_java::position::{BlockKindId, BlockPos, BlockStateId};

#[test]
fn invalidation_threshold_constants_match_runtime_policy() {
    assert_eq!(FULL_RECOMPILE_CHANGE_LIMIT, 4096);
    assert_eq!(LOCAL_RECOMPILE_PERCENT, 25);
    assert_eq!(WIRE_CLOSURE_DISTANCE, 15);
}

fn signature(kind: u32, node_kind: NodeKind, shape_hash: u64) -> Option<TopologySignature> {
    Some(TopologySignature {
        kind: BlockKindId(kind),
        node_kind,
        conductor: false,
        shape_hash,
    })
}

#[test]
fn topology_limit_switches_after_4096_positions() {
    assert_eq!(early_plan(0, 0, true), PlanKind::StateOnly);
    assert_eq!(early_plan(4096, 1, false), PlanKind::CollectAffected);
    assert_eq!(early_plan(4097, 0, true), PlanKind::Full);
    assert_eq!(early_plan(3, 0, true), PlanKind::LocalTopologyOnly);
    assert_eq!(early_plan(3, 0, false), PlanKind::CollectAffected);
}

#[test]
fn affected_share_switches_only_above_25_percent() {
    assert!(!rebuilds_fully(25, 100));
    assert!(rebuilds_fully(26, 100));
    assert!(!rebuilds_fully(1000, 0));
    assert!(rebuilds_fully(usize::MAX, 100));
}

#[test]
fn wire_shape_changes_keep_the_dense_topology() {
    let wire_side = signature(1, NodeKind::Wire, 7);
    let wire_none = signature(1, NodeKind::Wire, 9);
    let lamp = signature(2, NodeKind::Boundary, 0);
    assert_eq!(change_effect(wire_side, wire_side), ChangeEffect::StateOnly { record: false });
    assert_eq!(change_effect(lamp, lamp), ChangeEffect::StateOnly { record: true });
    assert_eq!(change_effect(None, None), ChangeEffect::StateOnly { record: true });
    assert_eq!(change_effect(wire_side, wire_none), ChangeEffect::Topology { network: false });
    assert_eq!(change_effect(wire_side, lamp), ChangeEffect::Topology { network: true });
    assert_eq!(change_effect(None, lamp), ChangeEffect::Topology { network: true });
}

#[test]
fn change_batches_split_states_from_topology() {
    let wire = signature(1, NodeKind::Wire, 0);
    let lamp = signature(2, NodeKind::Boundary, 0);
    let change = |x: i32, state: u32, old, new| SignedChange {
        pos: BlockPos::new(x, 0, 0),
        new_state: BlockStateId(state),
        old_signature: old,
        new_signature: new,
    };
    let changes = [
        change(3, 10, lamp, lamp),
        change(1, 11, wire, wire),
        change(2, 12, wire, signature(9, NodeKind::Wire, 0)),
        change(0, 13, lamp, None),
        change(2, 14, lamp, wire),
        change(5, 15, None, None),
    ];
    let batch = sort_changes(&changes);
    assert_eq!(
        batch.state_changes,
        [(BlockPos::new(3, 0, 0), BlockStateId(10)), (BlockPos::new(5, 0, 0), BlockStateId(15))]
    );
    assert_eq!(batch.topology_positions, [BlockPos::new(0, 0, 0), BlockPos::new(2, 0, 0)]);
    assert_eq!(batch.network_topology_positions, [BlockPos::new(0, 0, 0), BlockPos::new(2, 0, 0)]);
    assert_eq!(batch_plan(&batch, true), PlanKind::CollectAffected);

    let wire_only = sort_changes(&[change(2, 12, wire, signature(9, NodeKind::Wire, 0))]);
    assert!(wire_only.network_topology_positions.is_empty());
    assert_eq!(batch_plan(&wire_only, true), PlanKind::LocalTopologyOnly);
    assert_eq!(batch_plan(&wire_only, false), PlanKind::CollectAffected);
    assert_eq!(batch_plan(&sort_changes(&[]), true), PlanKind::StateOnly);
}
