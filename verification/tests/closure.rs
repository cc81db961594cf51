use redstone_java::compiled::closure::{wire_closure, BlockFlags, WireView, CLOSURE_STEPS};
use redstone_java::compiled::graph::CompiledGraph;
use redstone_java::position::BlockPos;
use redstone_java::posmap::PositionMap;

const WIRE: BlockFlags = BlockFlags { known: true, wire: true, conductor: false };
const STONE: BlockFlags = BlockFlags { known: true, wire: false, conductor: true };
const UNKNOWN: BlockFlags = BlockFlags { known: false, wire: true, conductor: true };

fn view(blocks: &[(BlockPos, BlockFlags)]) -> WireView {
    let mut map = PositionMap::new();
    for (pos, flags) in blocks {
        map.insert(*pos, *flags);
    }
    WireView { blocks: map }
}

#[test]
fn wires_climb_onto_conductors_and_step_down_beside_air() {
    let origin = BlockPos::zero();
    let world = view(&[
        (origin, WIRE),
        (BlockPos::new(1, 0, 0), STONE),
        (BlockPos::new(1, 1, 0), WIRE),
        (BlockPos::new(-1, -1, 0), WIRE),
        (BlockPos::new(0, 0, 1), WIRE),
    ]);
    assert_eq!(
        world.wire_neighbors(origin),
        vec![BlockPos::new(-1, -1, 0), BlockPos::new(0, 0, 1), BlockPos::new(1, 1, 0)]
    );
}

#[test]
fn a_conductor_above_stops_the_climb() {
    let origin = BlockPos::zero();
    let world = view(&[
        (origin, WIRE),
        (BlockPos::new(0, 1, 0), STONE),
        (BlockPos::new(1, 0, 0), STONE),
        (BlockPos::new(1, 1, 0), WIRE),
    ]);
    assert!(world.wire_neighbors(origin).is_empty());
}

#[test]
fn a_side_of_unknown_state_is_skipped() {
    let origin = BlockPos::zero();
    let world = view(&[(origin, WIRE), (BlockPos::new(0, 0, -1), UNKNOWN)]);
    assert!(world.wire_neighbors(origin).is_empty());
    assert!(!world.is_wire(BlockPos::new(0, 0, -1)));
}

#[test]
fn the_closure_stops_after_fifteen_steps() {
    assert_eq!(CLOSURE_STEPS, 15);
    let blocks: Vec<(BlockPos, BlockFlags)> = (12..40).map(|x| (BlockPos::new(x, 0, 0), WIRE)).collect();
    let world = view(&blocks);
    let graph = CompiledGraph::compile(&[]);
    let found = wire_closure(&graph, &world, &[BlockPos::new(10, 0, 0)]);
    // The search starts at the one wire in the cube around the change.
    assert!(found.contains(&BlockPos::new(12, 0, 0)));
    assert!(found.contains(&BlockPos::new(27, 0, 0)));
    assert!(!found.contains(&BlockPos::new(28, 0, 0)));
    assert_eq!(found.len(), 16);
}

#[test]
fn a_change_far_from_every_wire_reaches_none() {
    let world = view(&[(BlockPos::new(100, 0, 0), WIRE)]);
    let graph = CompiledGraph::compile(&[]);
    assert!(wire_closure(&graph, &world, &[BlockPos::zero()]).is_empty());
}
