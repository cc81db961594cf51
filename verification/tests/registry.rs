use redstone_java::registry::{
    classify, direction_bit, piston_push_reaction, BlockBehavior, PushReaction, SupportFaces,
    SupportType,
};
use redstone_java::position::Direction;

#[test]
fn piston_push_reactions_match_vanilla_categories() {
    for path in [
        "repeater",
        "comparator",
        "stone_pressure_plate",
        "tripwire_hook",
        "oak_door",
        "structure_void",
        "decorated_pot",
    ] {
        assert_eq!(piston_push_reaction(path, false), PushReaction::Destroy, "{path}");
    }
    for path in [
        "barrier",
        "light",
        "nether_portal",
        "end_portal",
        "end_gateway",
        "anvil",
        "grindstone",
        "lodestone",
    ] {
        assert_eq!(piston_push_reaction(path, false), PushReaction::Block, "{path}");
    }
    assert_eq!(
        piston_push_reaction("white_glazed_terracotta", false),
        PushReaction::PushOnly
    );
    assert_eq!(piston_push_reaction("sticky_piston", true), PushReaction::Block);
}

#[test]
fn trapdoors_move_while_doors_break() {
    assert_eq!(piston_push_reaction("oak_trapdoor", false), PushReaction::Normal);
    assert_eq!(piston_push_reaction("iron_door", false), PushReaction::Destroy);
    assert_eq!(piston_push_reaction("stone", false), PushReaction::Normal);
    assert_eq!(piston_push_reaction("redstone_wall_torch", false), PushReaction::Destroy);
}

#[test]
fn classify_reads_paths_and_the_extended_property() {
    let lever = classify("minecraft:lever", &[]);
    assert_eq!(lever.behavior, BlockBehavior::Lever);
    assert_eq!(lever.push_reaction, PushReaction::Destroy);
    assert!(lever.supported);

    let stone_button = classify("minecraft:stone_button", &[]);
    assert_eq!(stone_button.behavior, BlockBehavior::Button { wooden: false });
    let oak_button = classify("minecraft:oak_button", &[]);
    assert_eq!(oak_button.behavior, BlockBehavior::Button { wooden: true });

    let heavy = classify("minecraft:heavy_weighted_pressure_plate", &[]);
    assert_eq!(
        heavy.behavior,
        BlockBehavior::PressurePlate { max_weight: Some(150), detects_items: true }
    );
    let stone_plate = classify("stone_pressure_plate", &[]);
    assert_eq!(
        stone_plate.behavior,
        BlockBehavior::PressurePlate { max_weight: None, detects_items: false }
    );

    let retracted = classify("minecraft:piston", &[("extended", "false"), ("facing", "up")]);
    assert_eq!(retracted.behavior, BlockBehavior::Piston { sticky: false });
    assert_eq!(retracted.push_reaction, PushReaction::Normal);
    let extended = classify("minecraft:sticky_piston", &[("facing", "up"), ("extended", "true")]);
    assert_eq!(extended.behavior, BlockBehavior::Piston { sticky: true });
    assert_eq!(extended.push_reaction, PushReaction::Block);

    assert_eq!(classify("minecraft:cave_air", &[]).behavior, BlockBehavior::Air);
    assert_eq!(classify("minecraft:oak_fence_gate", &[]).behavior, BlockBehavior::PoweredConsumer);
    assert_eq!(classify("minecraft:waxed_copper_bulb", &[]).behavior, BlockBehavior::CopperBulb);
    assert_eq!(classify("minecraft:stone", &[]).behavior, BlockBehavior::Static);
}

#[test]
fn support_faces_keep_one_mask_per_kind() {
    let faces = SupportFaces::from_masks(0b11_1111, 0b00_1100, 0b00_0001);
    assert_eq!(faces.mask(SupportType::Full), 0b11_1111);
    assert_eq!(faces.mask(SupportType::Center), 0b00_1100);
    assert_eq!(faces.mask(SupportType::Rigid), 0b00_0001);
    assert!(faces.supports(Direction::Up, SupportType::Center));
    assert!(!faces.supports(Direction::North, SupportType::Center));
    assert!(faces.supports(Direction::West, SupportType::Rigid));
    assert!(!faces.supports(Direction::East, SupportType::Rigid));
    assert_eq!(direction_bit(Direction::South), 32);
}
