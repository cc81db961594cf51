use redstone_java::orientation::{cross, Orientation, SideBias};
use redstone_java::position::Direction;

#[test]
fn all_orientation_indices_round_trip() {
    for index in 0..48 {
        assert_eq!(Orientation::from_index(index).index(), index);
    }
}

#[test]
fn vanilla_seed_orientation_has_expected_order() {
    let orientation = Orientation::from_index(20).with_side_bias(SideBias::Left);
    assert_eq!(orientation.directions().len(), 6);
    assert_ne!(orientation.directions()[0], orientation.directions()[1]);
}

#[test]
fn every_orientation_lists_each_direction_once() {
    for index in 0..48 {
        let directions = Orientation::from_index(index).directions();
        for a in 0..6 {
            for b in (a + 1)..6 {
                assert_ne!(directions[a], directions[b], "{index}");
            }
        }
    }
}

#[test]
fn orientation_numbers_follow_the_java_layout() {
    let first = Orientation::from_index(0);
    assert_eq!(first.vertical_directions(), [Direction::Up, Direction::Down]);
    assert_eq!(first.directions()[1], Direction::North);
    let up_west = Orientation::from_index(13);
    assert_eq!(
        up_west.directions(),
        [
            Direction::East,
            Direction::West,
            Direction::North,
            Direction::South,
            Direction::Down,
            Direction::Up,
        ]
    );
    assert_eq!(up_west.with_side_bias(SideBias::Left).directions()[2], Direction::South);
    assert_eq!(up_west.with_side_bias(SideBias::Left).index(), 12);
}

#[test]
fn turning_keeps_up_and_front_apart() {
    let orientation = Orientation::from_index(13);
    let turned = orientation.with_up(Direction::East);
    assert_eq!(turned.vertical_directions()[1], Direction::East);
    assert_eq!(turned.directions()[1], Direction::Up);
    let kept = orientation.with_front_preserve_up(Direction::Down);
    assert_eq!(kept.index(), orientation.index());
    let fronted = orientation.with_front(Direction::Up);
    assert_eq!(fronted.directions()[1], Direction::Up);
    assert_eq!(fronted.vertical_directions()[1], Direction::East);
    assert_eq!(orientation.horizontal_directions().len(), 4);
}

#[test]
fn cross_product_of_axes() {
    assert_eq!(cross([1, 0, 0], [0, 1, 0]), [0, 0, 1]);
    assert_eq!(cross([0, 0, -1], [0, 1, 0]), [1, 0, 0]);
    assert_eq!(cross([2, 3, 4], [5, 6, 7]), [-3, 6, -3]);
}
