use redstone_java::compiled::sources::{
    attached_direction, initial_output, provides_strong_output, provides_weak_output, source_output,
};
use redstone_java::position::Direction;
use redstone_java::registry::BlockBehavior;
use redstone_java::text::{bool_property, int_property};

#[test]
fn property_numbers_parse_as_decimal_i32() {
    assert_eq!(int_property(&[("power", "7")], "power"), Some(7));
    assert_eq!(int_property(&[("power", "-3")], "power"), Some(-3));
    assert_eq!(int_property(&[("power", "seven")], "power"), None);
    assert_eq!(int_property(&[("level", "7")], "power"), None);
    assert!(bool_property(&[("lit", "true")], "lit"));
    assert!(!bool_property(&[("lit", "false")], "lit"));
    assert!(!bool_property(&[], "lit"));
}

#[test]
fn sources_put_out_their_recorded_power() {
    assert_eq!(source_output(BlockBehavior::RedstoneBlock, &[], None, None), Some(15));
    assert_eq!(
        source_output(BlockBehavior::Torch { wall: false }, &[("lit", "true")], None, None),
        Some(15)
    );
    assert_eq!(
        source_output(BlockBehavior::Torch { wall: true }, &[("lit", "false")], None, None),
        Some(0)
    );
    assert_eq!(source_output(BlockBehavior::Lever, &[("powered", "true")], None, None), Some(15));
    assert_eq!(source_output(BlockBehavior::Comparator, &[], Some(11), None), Some(11));
    assert_eq!(source_output(BlockBehavior::Comparator, &[], None, None), Some(0));
    assert_eq!(source_output(BlockBehavior::Target, &[("power", "22")], None, None), Some(15));
    assert_eq!(source_output(BlockBehavior::Target, &[], None, None), Some(0));
    assert_eq!(source_output(BlockBehavior::TrappedChest, &[], None, Some(3)), Some(3));
    assert_eq!(source_output(BlockBehavior::TrappedChest, &[], None, Some(-4)), Some(0));
    assert_eq!(source_output(BlockBehavior::Lamp, &[("lit", "true")], None, None), None);
}

#[test]
fn plates_read_power_before_powered() {
    let plate = BlockBehavior::PressurePlate { max_weight: Some(15), detects_items: true };
    assert_eq!(source_output(plate, &[("power", "6")], None, None), Some(6));
    assert_eq!(source_output(plate, &[("powered", "true")], None, None), Some(15));
    assert_eq!(
        source_output(BlockBehavior::DaylightDetector, &[("power", "-1"), ("powered", "true")], None, None),
        Some(0)
    );
}

#[test]
fn initial_output_uses_the_state_power_and_zero_for_non_sources() {
    assert_eq!(initial_output(BlockBehavior::Comparator, &[], 9, None), 9);
    assert_eq!(initial_output(BlockBehavior::Wire, &[("power", "12")], 0, None), 0);
    assert_eq!(initial_output(BlockBehavior::Observer, &[("powered", "true")], 0, None), 15);
}

#[test]
fn weak_and_strong_output_faces() {
    assert!(provides_weak_output(BlockBehavior::Lever, None, Direction::Up));
    assert!(!provides_weak_output(
        BlockBehavior::Torch { wall: true },
        Some(Direction::East),
        Direction::East
    ));
    assert!(provides_weak_output(
        BlockBehavior::Torch { wall: true },
        Some(Direction::East),
        Direction::West
    ));
    assert!(!provides_weak_output(BlockBehavior::Torch { wall: false }, None, Direction::Up));
    assert!(provides_weak_output(BlockBehavior::Repeater, Some(Direction::North), Direction::North));
    assert!(!provides_weak_output(BlockBehavior::Repeater, None, Direction::North));
    assert!(!provides_weak_output(BlockBehavior::Lamp, None, Direction::North));

    assert!(provides_strong_output(BlockBehavior::Torch { wall: true }, &[], None, Direction::Down));
    assert!(provides_strong_output(
        BlockBehavior::Lever,
        &[("face", "ceiling")],
        Some(Direction::East),
        Direction::Down
    ));
    assert!(provides_strong_output(
        BlockBehavior::Button { wooden: true },
        &[("face", "wall")],
        Some(Direction::East),
        Direction::East
    ));
    assert!(provides_strong_output(BlockBehavior::TrappedChest, &[], None, Direction::Up));
    assert!(!provides_strong_output(BlockBehavior::RedstoneBlock, &[], None, Direction::Up));
    assert_eq!(attached_direction(&[("face", "floor")], None), Direction::Up);
    assert_eq!(attached_direction(&[], None), Direction::North);
}
