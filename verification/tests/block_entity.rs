use redstone_java::orientation::direction_from_vector;
use redstone_java::position::Direction;
use redstone_java::rules::block_entity::{
    chest_partner_direction, entity_direction, item_frame_output, item_stack_signal, jukebox_output,
    lectern_output, shelf_output, FacingField,
};
use redstone_java::rules::inventory::container_slots;
use redstone_java::rules::shape::direction_property;

#[test]
fn item_stacks_signal_by_fill_of_their_stack() {
    assert_eq!(item_stack_signal(None, None), 0);
    assert_eq!(item_stack_signal(Some(0), Some(64)), 0);
    assert_eq!(item_stack_signal(Some(1), None), 1);
    assert_eq!(item_stack_signal(Some(32), None), 8);
    assert_eq!(item_stack_signal(Some(64), None), 15);
    assert_eq!(item_stack_signal(Some(1), Some(1)), 15);
    assert_eq!(item_stack_signal(Some(500), Some(16)), 15);
    assert_eq!(item_stack_signal(Some(8), Some(16)), 8);
    assert_eq!(item_stack_signal(Some(3), Some(0)), 15);
}

#[test]
fn lecterns_signal_by_page() {
    assert_eq!(lectern_output(false, Some(10), Some(3)), 0);
    assert_eq!(lectern_output(true, None, None), 15);
    assert_eq!(lectern_output(true, Some(1), Some(0)), 15);
    assert_eq!(lectern_output(true, Some(15), Some(0)), 1);
    assert_eq!(lectern_output(true, Some(15), Some(7)), 8);
    assert_eq!(lectern_output(true, Some(15), Some(40)), 15);
    assert_eq!(lectern_output(true, Some(3), Some(-2)), 1);
}

#[test]
fn jukeboxes_signal_by_disc() {
    assert_eq!(jukebox_output(Some("minecraft:cat"), None), 2);
    assert_eq!(jukebox_output(Some("pigstep"), Some("minecraft:music_disc_cat")), 13);
    assert_eq!(jukebox_output(None, Some("minecraft:music_disc_5")), 15);
    assert_eq!(jukebox_output(None, Some("minecraft:diamond")), 0);
    assert_eq!(jukebox_output(None, None), 0);
}

#[test]
fn entity_facing_reads_names_and_ordinals() {
    assert_eq!(entity_direction(FacingField::Name("west")), Some(Direction::West));
    assert_eq!(entity_direction(FacingField::Name("sideways")), None);
    assert_eq!(entity_direction(FacingField::Number(Some(2))), Some(Direction::North));
    assert_eq!(entity_direction(FacingField::Number(Some(6))), None);
    assert_eq!(entity_direction(FacingField::Number(None)), None);
    assert_eq!(entity_direction(FacingField::Other), None);
}

#[test]
fn item_frames_signal_by_rotation() {
    assert_eq!(item_frame_output(0, Some(1), true, Some(3)), None);
    assert_eq!(item_frame_output(2, Some(1), true, Some(3)), None);
    assert_eq!(item_frame_output(1, Some(0), false, Some(3)), Some(0));
    assert_eq!(item_frame_output(1, Some(1), false, Some(3)), Some(4));
    assert_eq!(item_frame_output(1, None, true, Some(-1)), Some(8));
    assert_eq!(item_frame_output(1, None, true, None), Some(1));
    assert_eq!(item_frame_output(1, Some(5), false, Some(9)), Some(2));
}

#[test]
fn shelves_signal_their_occupied_slots_as_bits() {
    assert_eq!(shelf_output(Some(Direction::North), Direction::South, &[0, 2]), 5);
    assert_eq!(shelf_output(Some(Direction::North), Direction::South, &[1, 1, 7]), 2);
    assert_eq!(shelf_output(Some(Direction::North), Direction::North, &[0, 1, 2]), 0);
    assert_eq!(shelf_output(None, Direction::North, &[0]), 0);
}

#[test]
fn chest_halves_find_their_partner() {
    assert_eq!(
        chest_partner_direction(Some(Direction::North), Some("left")),
        Some(Direction::North.clockwise())
    );
    assert_eq!(
        chest_partner_direction(Some(Direction::North), Some("right")),
        Some(Direction::North.counter_clockwise())
    );
    assert_eq!(chest_partner_direction(Some(Direction::North), Some("single")), None);
    assert_eq!(chest_partner_direction(None, Some("left")), None);
}

#[test]
fn container_slots_come_from_fields_kind_or_capacity() {
    assert_eq!(container_slots("minecraft:hopper", Some(7), None), 7);
    assert_eq!(container_slots("minecraft:hopper", Some(0), None), 5);
    assert_eq!(container_slots("minecraft:hopper", Some(1 << 40), None), 5);
    assert_eq!(container_slots("minecraft:mystery", None, Some(65)), 2);
    assert_eq!(container_slots("minecraft:mystery", None, None), 1);
    assert_eq!(container_slots("minecraft:mystery", None, Some(-5)), 1);
}

#[test]
fn direction_properties_and_vectors_name_directions() {
    assert_eq!(direction_property(&[("facing", "east")], "facing"), Some(Direction::East));
    assert_eq!(direction_property(&[("facing", "sideways")], "facing"), None);
    assert_eq!(direction_property(&[], "facing"), None);
    assert_eq!(direction_from_vector([0, 0, -1]), Direction::North);
    assert_eq!(direction_from_vector([1, 0, 0]), Direction::East);
    assert_eq!(direction_from_vector([0, -1, 0]), Direction::Down);
}
