use redstone_java::compiled::frontend::{classify, shape_hash, topology_signature, NodeKind};
use redstone_java::position::BlockKindId;
use redstone_java::registry::{self, BlockBehavior};

fn behavior(name: &str) -> BlockBehavior {
    registry::classify(name, &[]).behavior
}

#[test]
fn frontend_classifies_supported_nodes_and_boundaries() {
    let cases = [
        ("minecraft:redstone_block", false, NodeKind::ConstantSource),
        ("minecraft:redstone_wire", false, NodeKind::Wire),
        ("minecraft:redstone_torch", false, NodeKind::Torch),
        ("minecraft:repeater", false, NodeKind::Repeater),
        ("minecraft:comparator", false, NodeKind::Comparator),
        ("minecraft:lever", false, NodeKind::Lever),
        ("minecraft:stone_button", false, NodeKind::Button),
        ("minecraft:stone_pressure_plate", false, NodeKind::PressurePlate),
        ("minecraft:observer", false, NodeKind::SignalSource),
        ("minecraft:target", true, NodeKind::SignalSource),
        ("minecraft:daylight_detector", false, NodeKind::SignalSource),
        ("minecraft:lectern", false, NodeKind::SignalSource),
        ("minecraft:trapped_chest", false, NodeKind::SignalSource),
        ("minecraft:piston", false, NodeKind::Boundary),
        ("minecraft:redstone_lamp", true, NodeKind::Boundary),
        ("minecraft:stone", true, NodeKind::Boundary),
    ];
    for (name, conductor, expected) in cases {
        assert_eq!(classify(&behavior(name), conductor), Some(expected), "{name}");
    }
    assert_eq!(classify(&behavior("minecraft:air"), false), None);
}

#[test]
fn topology_signature_separates_power_from_structure() {
    let wire = behavior("minecraft:redstone_wire");
    let wire_off = [("east", "none"), ("north", "none"), ("power", "0"), ("south", "none"), ("west", "none")];
    let wire_on = [("east", "none"), ("north", "none"), ("power", "15"), ("south", "none"), ("west", "none")];
    assert_eq!(
        topology_signature(BlockKindId(1), &wire, false, false, shape_hash(&wire_off)),
        topology_signature(BlockKindId(1), &wire, false, false, shape_hash(&wire_on))
    );

    let piston = behavior("minecraft:piston");
    let piston_west = [("extended", "false"), ("facing", "west")];
    let piston_east = [("extended", "false"), ("facing", "east")];
    assert_ne!(
        topology_signature(BlockKindId(2), &piston, false, false, shape_hash(&piston_west)),
        topology_signature(BlockKindId(2), &piston, false, false, shape_hash(&piston_east))
    );

    let moving = behavior("minecraft:moving_piston");
    let moving_west = [("facing", "west"), ("type", "normal")];
    let moving_east = [("facing", "east"), ("type", "normal")];
    assert_ne!(
        topology_signature(BlockKindId(3), &moving, false, true, shape_hash(&moving_west)),
        topology_signature(BlockKindId(3), &moving, false, true, shape_hash(&moving_east))
    );
}
