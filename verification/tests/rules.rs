use redstone_java::position::{BlockPos, Direction};
use redstone_java::registry::{block_definition_has_entity, BlockBehavior};
use redstone_java::rules::comparator::{
    chests_connect, clamp_signal, copper_golem_pose_output, has_analog_output, is_chest,
    is_inventory_output_block, jukebox_song_output,
};
use redstone_java::rules::consumer::{next_rail_pos, rail_axis, RailAxis};
use redstone_java::rules::inventory::{
    default_container_slot_count, default_slots, dispenser_behavior, is_bookshelf_book,
    is_brewing_bottle, is_shulker_box_container, is_shulker_box_item, projectile_entity_kind,
    DispenserBehavior, InsertionOutcome,
};
use redstone_java::rules::piston::{is_sticky_block, projection, sticks_to};
use redstone_java::rules::shape::{
    connection_exception, contains_rail_column, direction_name, facing_axis, is_rail_name, is_signal_source,
    rail_is_straight, shape_family, RailShape, ShapeFamily,
};
use redstone_java::rules::signals::{power_value, tracks_entity_collisions};

#[test]
fn comparator_reads_analog_blocks_chests_and_inventories() {
    assert!(has_analog_output("minecraft:composter"));
    assert!(has_analog_output("minecraft:pink_candle_cake"));
    assert!(has_analog_output("minecraft:oxidized_copper_bulb"));
    assert!(has_analog_output("minecraft:exposed_copper_chest"));
    assert!(has_analog_output("minecraft:red_shulker_box"));
    assert!(has_analog_output("minecraft:oak_shelf"));
    assert!(!has_analog_output("minecraft:stone"));
    assert!(is_inventory_output_block("barrel"));
    assert!(!is_inventory_output_block("chest"));
    assert!(is_chest("trapped_chest"));
    assert!(chests_connect("copper_chest", "waxed_weathered_copper_chest"));
    assert!(!chests_connect("chest", "trapped_chest"));
    assert_eq!(clamp_signal(-4), 0);
    assert_eq!(clamp_signal(9), 9);
    assert_eq!(clamp_signal(400), 15);
    assert_eq!(copper_golem_pose_output("running"), 3);
    assert_eq!(copper_golem_pose_output("lying"), 0);
    assert_eq!(jukebox_song_output("13"), 1);
    assert_eq!(jukebox_song_output("lava_chicken"), 9);
    assert_eq!(jukebox_song_output("5"), 15);
    assert_eq!(jukebox_song_output("unknown"), 0);
}

#[test]
fn rails_follow_their_axis_and_slopes() {
    assert_eq!(rail_axis(Some("ascending_west")), Some(RailAxis::EastWest));
    assert_eq!(rail_axis(Some("north_south")), Some(RailAxis::NorthSouth));
    assert_eq!(rail_axis(Some("south_east")), None);
    assert_eq!(rail_axis(None), None);
    let pos = BlockPos::new(4, 64, -2);
    assert_eq!(
        next_rail_pos(pos, Some("ascending_east"), false),
        Some((BlockPos::new(5, 65, -2), RailAxis::EastWest, false))
    );
    assert_eq!(
        next_rail_pos(pos, Some("north_south"), true),
        Some((BlockPos::new(4, 64, -1), RailAxis::NorthSouth, true))
    );
    assert_eq!(next_rail_pos(pos, Some("north_east"), true), None);
    assert_eq!(next_rail_pos(pos, None, true), None);
}

#[test]
fn containers_know_their_slots_and_items() {
    assert_eq!(default_container_slot_count("minecraft:brewing_stand"), Some(5));
    assert_eq!(default_container_slot_count("minecraft:lime_shulker_box"), Some(27));
    assert_eq!(default_container_slot_count("minecraft:chest_boat"), None);
    assert_eq!(default_slots("minecraft:chest_boat"), Some(27));
    assert_eq!(default_slots("minecraft:chiseled_bookshelf"), Some(6));
    assert_eq!(default_slots("minecraft:jukebox"), Some(1));
    assert!(is_brewing_bottle("minecraft:glass_bottle"));
    assert!(!is_brewing_bottle("minecraft:water_bucket"));
    assert!(is_shulker_box_container("minecraft:shulker_box"));
    assert!(is_shulker_box_item("minecraft:blue_shulker_box"));
    assert!(!is_shulker_box_item("minecraft:chest"));
    assert!(is_bookshelf_book("minecraft:knowledge_book"));
    assert_eq!(dispenser_behavior("minecraft:wind_charge"), Some(DispenserBehavior::Projectile));
    assert_eq!(dispenser_behavior("minecraft:tnt"), Some(DispenserBehavior::PrimeTnt));
    assert_eq!(dispenser_behavior("minecraft:tnt_minecart"), Some(DispenserBehavior::Minecart));
    assert_eq!(dispenser_behavior("minecraft:bamboo_raft"), Some(DispenserBehavior::DefaultEject));
    assert_eq!(dispenser_behavior("minecraft:dirt"), None);
    assert_eq!(projectile_entity_kind("minecraft:spectral_arrow"), "minecraft:arrow");
    assert_eq!(projectile_entity_kind("minecraft:lingering_potion"), "minecraft:potion");
    assert_eq!(projectile_entity_kind("minecraft:snowball"), "minecraft:snowball");
    assert!(InsertionOutcome { inserted: 3, remaining: 0 }.fully_accepted());
    assert!(!InsertionOutcome { inserted: 0, remaining: 0 }.fully_accepted());
    assert!(!InsertionOutcome { inserted: 3, remaining: 1 }.fully_accepted());
}

#[test]
fn sticky_blocks_do_not_pull_each_other() {
    assert!(is_sticky_block("minecraft:honey_block"));
    assert!(!is_sticky_block("minecraft:stone"));
    assert!(sticks_to("minecraft:slime_block", "minecraft:slime_block"));
    assert!(!sticks_to("minecraft:slime_block", "minecraft:honey_block"));
    assert!(!sticks_to("minecraft:honey_block", "minecraft:slime_block"));
    assert!(sticks_to("minecraft:stone", "minecraft:honey_block"));
    assert!(sticks_to("minecraft:slime_block", "minecraft:stone"));
    let pos = BlockPos::new(3, -7, 11);
    assert_eq!(projection(pos, Direction::East), 3);
    assert_eq!(projection(pos, Direction::Down), 7);
    assert_eq!(projection(pos, Direction::North), -11);
}

#[test]
fn shapes_group_their_families() {
    assert_eq!(shape_family("minecraft:redstone_wire"), Some(ShapeFamily::Wire));
    assert_eq!(shape_family("minecraft:nether_brick_fence"), Some(ShapeFamily::Fence { wooden: false }));
    assert_eq!(shape_family("minecraft:oak_fence"), Some(ShapeFamily::Fence { wooden: true }));
    assert_eq!(shape_family("minecraft:red_stained_glass_pane"), Some(ShapeFamily::Pane));
    assert_eq!(shape_family("minecraft:iron_bars"), Some(ShapeFamily::Pane));
    assert_eq!(shape_family("minecraft:cobblestone_wall"), Some(ShapeFamily::Wall));
    assert_eq!(shape_family("minecraft:rail"), Some(ShapeFamily::Rail { straight: false }));
    assert_eq!(shape_family("minecraft:powered_rail"), Some(ShapeFamily::Rail { straight: true }));
    assert_eq!(shape_family("minecraft:stone"), None);
    assert!(is_rail_name("activator_rail"));
    assert!(!rail_is_straight("minecraft:rail"));
    assert!(connection_exception("oak_leaves"));
    assert!(connection_exception("jack_o_lantern"));
    assert!(!connection_exception("stone"));
    assert!(is_signal_source(&BlockBehavior::Lectern));
    assert!(!is_signal_source(&BlockBehavior::Lamp));
    assert_eq!(direction_name(Direction::Up), "up");
    assert!(contains_rail_column(&[BlockPos::new(1, 5, 2)], BlockPos::new(1, 9, 2)));
    assert!(!contains_rail_column(&[BlockPos::new(1, 5, 3)], BlockPos::new(1, 9, 2)));
}

#[test]
fn rail_shape_names_round_trip() {
    for shape in [
        RailShape::NorthSouth,
        RailShape::EastWest,
        RailShape::AscendingEast,
        RailShape::AscendingWest,
        RailShape::AscendingNorth,
        RailShape::AscendingSouth,
        RailShape::SouthEast,
        RailShape::SouthWest,
        RailShape::NorthWest,
        RailShape::NorthEast,
    ] {
        assert_eq!(RailShape::parse(shape.name()), shape);
    }
    assert_eq!(RailShape::parse("sideways"), RailShape::NorthSouth);
    let pos = BlockPos::new(0, 10, 0);
    assert_eq!(
        RailShape::AscendingNorth.connections(pos),
        [BlockPos::new(0, 11, -1), BlockPos::new(0, 10, 1)]
    );
}

#[test]
fn signals_and_block_entities() {
    assert!(tracks_entity_collisions(&BlockBehavior::Tripwire));
    assert!(!tracks_entity_collisions(&BlockBehavior::Lever));
    assert_eq!(power_value(7), "7");
    assert_eq!(power_value(200), "15");
    assert!(block_definition_has_entity("minecraft:barrel"));
    assert!(block_definition_has_entity("bell"));
    assert!(!block_definition_has_entity("minecraft:stone"));
}

#[test]
fn facing_axes_pair_opposite_directions() {
    assert_eq!(facing_axis(Direction::West), 0);
    assert_eq!(facing_axis(Direction::East), 0);
    assert_eq!(facing_axis(Direction::Down), 1);
    assert_eq!(facing_axis(Direction::Up), 1);
    assert_eq!(facing_axis(Direction::North), 2);
    assert_eq!(facing_axis(Direction::South), 2);
}
