use redstone_java::compiled::closure::{BlockFlags, WireView};
use redstone_java::compiled::links::compile_links;
use redstone_java::compiled::network::NetworkWireId;
use redstone_java::position::BlockPos;
use redstone_java::posmap::PositionMap;

const WIRE: BlockFlags = BlockFlags { known: true, wire: true, conductor: false };

fn view(blocks: &[(BlockPos, BlockFlags)]) -> WireView {
    let mut map = PositionMap::new();
    for (pos, flags) in blocks {
        map.insert(*pos, *flags);
    }
    WireView { blocks: map }
}

fn index(positions: &[BlockPos]) -> PositionMap<NetworkWireId> {
    let mut index = PositionMap::new();
    for (slot, pos) in positions.iter().enumerate() {
        index.insert(*pos, NetworkWireId(slot as u32));
    }
    index
}

#[test]
fn neighbouring_wires_power_each_other() {
    let positions = vec![BlockPos::new(0, 0, 0), BlockPos::new(1, 0, 0)];
    let world = view(&[(positions[0], WIRE), (positions[1], WIRE)]);
    let (dependent_offsets, dependents, predecessor_offsets, predecessors) =
        compile_links(&positions, &index(&positions), &world);
    assert_eq!(dependent_offsets, vec![0, 1, 2]);
    assert_eq!(dependents, vec![NetworkWireId(1), NetworkWireId(0)]);
    assert_eq!(predecessor_offsets, vec![0, 1, 2]);
    assert_eq!(predecessors, vec![NetworkWireId(1), NetworkWireId(0)]);
}

#[test]
fn a_wire_stepping_down_beside_air_is_powered_by_the_lower_wire_alone() {
    let upper = BlockPos::new(0, 0, 0);
    let lower = BlockPos::new(1, -1, 0);
    let positions = vec![upper, lower];
    let world = view(&[(upper, WIRE), (lower, WIRE)]);
    let (dependent_offsets, dependents, predecessor_offsets, predecessors) =
        compile_links(&positions, &index(&positions), &world);
    assert_eq!(dependent_offsets, vec![0, 0, 1]);
    assert_eq!(dependents, vec![NetworkWireId(0)]);
    assert_eq!(predecessor_offsets, vec![0, 1, 1]);
    assert_eq!(predecessors, vec![NetworkWireId(1)]);
}

#[test]
fn a_wire_far_from_the_others_has_no_links() {
    let positions = vec![BlockPos::new(0, 0, 0), BlockPos::new(1, 0, 0), BlockPos::new(5, 0, 0)];
    let world = view(&[(positions[0], WIRE), (positions[1], WIRE), (positions[2], WIRE)]);
    let (dependent_offsets, dependents, predecessor_offsets, _) =
        compile_links(&positions, &index(&positions), &world);
    assert_eq!(dependent_offsets, vec![0, 1, 2, 2]);
    assert_eq!(dependents, vec![NetworkWireId(1), NetworkWireId(0)]);
    assert_eq!(predecessor_offsets, vec![0, 1, 2, 2]);
}
