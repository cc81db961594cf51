use redstone_java::compiled::network::{NetworkInputKind, NetworkNodeId, NetworkNodeKind, NetworkWireId};
use redstone_java::compiled::network_build::compile_network;
use redstone_java::compiled::node_build::identify_nodes;
use redstone_java::compiled::runtime::network_is_ready;
use redstone_java::compiled::wire_build::wire_positions;
use redstone_java::compiled::world::{BlockInfo, WorldView};
use redstone_java::position::{BlockPos, BlockStateId, Direction};
use redstone_java::registry::BlockBehavior;

fn block(behavior: BlockBehavior, state: u32, conductor: bool, power: u8) -> BlockInfo<'static> {
    BlockInfo {
        known: true,
        state: BlockStateId(state),
        behavior,
        properties: Vec::new(),
        facing: None,
        conductor,
        power,
        updates_neighbors: false,
        open_count: None,
    }
}

fn at(x: i32) -> BlockPos {
    BlockPos { x, y: 64, z: 0 }
}

/// A lever, two wires in a row and a lamp, listed out of order.
fn lever_line() -> WorldView<'static> {
    WorldView::from_blocks(vec![
        (at(3), block(BlockBehavior::Lamp, 4, true, 0)),
        (at(1), block(BlockBehavior::Wire, 2, false, 15)),
        (at(0), block(BlockBehavior::Lever, 1, false, 15)),
        (at(2), block(BlockBehavior::Wire, 3, false, 14)),
    ])
}

#[test]
fn world_view_orders_positions_and_keeps_last_entry() {
    let world = WorldView::from_blocks(vec![
        (at(5), block(BlockBehavior::Static, 1, true, 0)),
        (at(-2), block(BlockBehavior::Wire, 2, false, 0)),
        (at(5), block(BlockBehavior::Lamp, 3, true, 0)),
    ]);
    assert_eq!(world.order, vec![at(-2), at(5)]);
    assert_eq!(world.blocks.get(at(5)).map(|info| info.state), Some(BlockStateId(3)));
    assert!(world.blocks.get(at(0)).is_none());
}

#[test]
fn wire_positions_lists_wires_ascending() {
    let world = lever_line();
    assert_eq!(wire_positions(&world), vec![at(1), at(2)]);
}

#[test]
fn identify_nodes_numbers_nodes_by_position() {
    let world = lever_line();
    let (nodes, index) = identify_nodes(&world);
    assert_eq!(nodes.len(), 2);
    assert_eq!(nodes[0].pos, at(0));
    assert_eq!(nodes[0].kind, NetworkNodeKind::Lever);
    assert_eq!(nodes[1].pos, at(3));
    assert_eq!(nodes[1].kind, NetworkNodeKind::Consumer);
    assert_eq!(index.get(at(3)).copied(), Some(NetworkNodeId(1)));
    assert!(index.get(at(1)).is_none());
}

#[test]
fn compile_network_routes_lever_through_wires_to_lamp() {
    let world = lever_line();
    let network = compile_network(&world).expect("small world fits");
    assert_eq!(network.node_count(), 2);
    assert_eq!(network.wire_count(), 2);
    assert_eq!(network.node_id(at(0)), Some(NetworkNodeId(0)));
    assert_eq!(network.node_id(at(3)), Some(NetworkNodeId(1)));
    assert_eq!(network.wire_id(at(1)), Some(NetworkWireId(0)));
    assert_eq!(network.wire_id(at(2)), Some(NetworkWireId(1)));
    let edges = network.edges_from(NetworkNodeId(0));
    assert_eq!(edges.len(), 1);
    assert_eq!(edges[0].target, NetworkNodeId(1));
    assert_eq!(edges[0].kind, NetworkInputKind::Default);
    assert_eq!(edges[0].attenuation, 1);
    assert_eq!(edges[0].source_wire, Some(NetworkWireId(0)));
    assert_eq!(edges[0].target_wire, Some(NetworkWireId(1)));
    assert!(network.edges_from(NetworkNodeId(1)).is_empty());
    assert!(network.validate().is_ok());
    assert!(network_is_ready(&network));
    let stats = network.build_stats();
    assert_eq!(stats.wire_neighbor_scans, 2);
    assert_eq!(stats.wire_source_ports, 1);
    assert!(network.dependents(at(2)).contains(&NetworkNodeId(1)));
}

#[test]
fn compile_network_of_empty_world_is_empty() {
    let world = WorldView::from_blocks(Vec::new());
    let network = compile_network(&world).expect("empty world fits");
    assert_eq!(network.node_count(), 0);
    assert_eq!(network.wire_count(), 0);
    assert_eq!(network.edge_count(), 0);
}

#[test]
fn torch_on_block_reads_the_block_below() {
    let mut torch = block(BlockBehavior::Torch { wall: false }, 2, false, 15);
    torch.facing = Some(Direction::North);
    let mut lever = block(BlockBehavior::Lever, 3, false, 0);
    lever.facing = Some(Direction::East);
    let world = WorldView::from_blocks(vec![
        (BlockPos { x: 0, y: 63, z: 0 }, block(BlockBehavior::Static, 1, true, 0)),
        (BlockPos { x: 0, y: 64, z: 0 }, torch),
        (BlockPos { x: 1, y: 63, z: 0 }, lever),
    ]);
    let network = compile_network(&world).expect("small world fits");
    assert_eq!(network.node_count(), 2);
    let torch_id = network.node_id(BlockPos { x: 0, y: 64, z: 0 }).unwrap();
    let lever_id = network.node_id(BlockPos { x: 1, y: 63, z: 0 }).unwrap();
    assert!(network.dependents(BlockPos { x: 0, y: 63, z: 0 }).contains(&torch_id));
    assert!(network.dependents(BlockPos { x: 1, y: 63, z: 0 }).contains(&torch_id));
    let edges = network.edges_from(lever_id);
    assert_eq!(edges.len(), 1);
    assert_eq!(edges[0].target, torch_id);
    assert_eq!(edges[0].attenuation, 0);
    assert_eq!(edges[0].source_wire, None);
}
