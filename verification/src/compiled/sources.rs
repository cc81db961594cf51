//! What a source block puts out and on which faces, read from its behaviour
//! and block state.

use vstd::prelude::*;

use crate::position::Direction;
use crate::registry::BlockBehavior;
use crate::text::{bool_property, bytes, flag_of, int_property, name_is, number_of, property, property_of};

verus! {

/// A value clamped to a signal level.
pub open spec fn level(value: int) -> u8 {
    if value < 0 {
        0
    } else if value > 15 {
        15
    } else {
        value as u8
    }
}

/// Full power when `on`, else none.
pub open spec fn on_level(on: bool) -> u8 {
    if on {
        15
    } else {
        0
    }
}

/// The power a block reports: its `power` property clamped to a signal level,
/// or, without one, full power when its `powered` property is `true`.
pub open spec fn reported_power(properties: Seq<(&str, &str)>) -> u8 {
    match number_of(properties, bytes("power")) {
        Some(power) => level(power as int),
        None => on_level(flag_of(properties, bytes("powered"))),
    }
}

/// What a block with behaviour `behavior` and properties `properties` puts
/// out as a source: `comparator` for a comparator, the clamped open count for
/// a trapped chest, and nothing for a block that is no source.
pub open spec fn spec_source_output(
    behavior: BlockBehavior,
    properties: Seq<(&str, &str)>,
    comparator: u8,
    open_count: Option<i64>,
) -> Option<u8> {
    match behavior {
        BlockBehavior::RedstoneBlock => Some(15u8),
        BlockBehavior::Torch { .. } => Some(on_level(flag_of(properties, bytes("lit")))),
        BlockBehavior::Repeater
        | BlockBehavior::Lever
        | BlockBehavior::Button { .. }
        | BlockBehavior::Observer
        | BlockBehavior::Lectern => Some(on_level(flag_of(properties, bytes("powered")))),
        BlockBehavior::Comparator => Some(comparator),
        BlockBehavior::PressurePlate { .. }
        | BlockBehavior::TripwireHook
        | BlockBehavior::DetectorRail
        | BlockBehavior::DaylightDetector => Some(reported_power(properties)),
        BlockBehavior::Target => Some(
            level(
                match number_of(properties, bytes("power")) {
                    Some(power) => power as int,
                    None => 0,
                },
            ),
        ),
        BlockBehavior::TrappedChest => Some(
            level(
                match open_count {
                    Some(count) => count as int,
                    None => 0,
                },
            ),
        ),
        _ => None,
    }
}

/// A value clamped to a signal level.
fn clamp_level(value: i64) -> (result: u8)
    ensures
        result == level(value as int),
{
    if value < 0 {
        0
    } else if value > 15 {
        15
    } else {
        value as u8
    }
}

/// Full power when the property named `key` is `true`, else none.
fn flag_level(properties: &[(&str, &str)], key: &str) -> (result: u8)
    ensures
        result == on_level(flag_of(properties@, bytes(key))),
{
    if bool_property(properties, key) {
        15
    } else {
        0
    }
}

/// What a source puts out, with `comparator` as a comparator's output.
fn output_for(behavior: BlockBehavior, properties: &[(&str, &str)], comparator: u8, open_count: Option<i64>) -> (output: Option<u8>)
    ensures
        output == spec_source_output(behavior, properties@, comparator, open_count),
{
    match behavior {
        BlockBehavior::RedstoneBlock => Some(15),
        BlockBehavior::Torch { .. } => Some(flag_level(properties, "lit")),
        BlockBehavior::Repeater
        | BlockBehavior::Lever
        | BlockBehavior::Button { .. }
        | BlockBehavior::Observer
        | BlockBehavior::Lectern => Some(flag_level(properties, "powered")),
        BlockBehavior::Comparator => Some(comparator),
        BlockBehavior::PressurePlate { .. }
        | BlockBehavior::TripwireHook
        | BlockBehavior::DetectorRail
        | BlockBehavior::DaylightDetector => match int_property(properties, "power") {
            Some(power) => Some(clamp_level(power as i64)),
            None => Some(flag_level(properties, "powered")),
        },
        BlockBehavior::Target => match int_property(properties, "power") {
            Some(power) => Some(clamp_level(power as i64)),
            None => Some(0),
        },
        BlockBehavior::TrappedChest => match open_count {
            Some(count) => Some(clamp_level(count)),
            None => Some(0),
        },
        _ => None,
    }
}

/// What a source block puts out when its state changes: `comparator_output`
/// is the comparator's recorded output (none counts as 0) and `open_count`
/// the trapped chest's open count; nothing when the block is no source.
pub fn source_output(
    behavior: BlockBehavior,
    properties: &[(&str, &str)],
    comparator_output: Option<u8>,
    open_count: Option<i64>,
) -> (output: Option<u8>)
    ensures
        output == spec_source_output(
            behavior,
            properties@,
            match comparator_output {
                Some(value) => value,
                None => 0,
            },
            open_count,
        ),
{
    let comparator = match comparator_output {
        Some(value) => value,
        None => 0,
    };
    output_for(behavior, properties, comparator, open_count)
}

/// What a node puts out when the network is compiled: as `source_output`,
/// with the state's recorded `power` as a comparator's output, and 0 for a
/// block that is no source.
pub fn initial_output(behavior: BlockBehavior, properties: &[(&str, &str)], power: u8, open_count: Option<i64>) -> (output: u8)
    ensures
        output == match spec_source_output(behavior, properties@, power, open_count) {
            Some(value) => value,
            None => 0,
        },
{
    match output_for(behavior, properties, power, open_count) {
        Some(value) => value,
        None => 0,
    }
}

/// Whether `facing` is `Some(direction)`.
pub open spec fn faces(facing: Option<Direction>, direction: Direction) -> bool {
    facing == Some(direction)
}

fn same_facing(facing: Option<Direction>, direction: Direction) -> (result: bool)
    ensures
        result == faces(facing, direction),
{
    match facing {
        Some(value) => value == direction,
        None => false,
    }
}

/// Whether a block with behaviour `behavior` facing `facing` powers its
/// neighbour in `direction` weakly.
pub open spec fn spec_provides_weak_output(behavior: BlockBehavior, facing: Option<Direction>, direction: Direction) -> bool {
    match behavior {
        BlockBehavior::RedstoneBlock
        | BlockBehavior::Lever
        | BlockBehavior::Button { .. }
        | BlockBehavior::PressurePlate { .. }
        | BlockBehavior::Target
        | BlockBehavior::TripwireHook
        | BlockBehavior::DetectorRail
        | BlockBehavior::DaylightDetector
        | BlockBehavior::Lectern
        | BlockBehavior::TrappedChest => true,
        BlockBehavior::Torch { wall } => if wall {
            !faces(facing, direction)
        } else {
            direction != Direction::Up
        },
        BlockBehavior::Repeater | BlockBehavior::Comparator | BlockBehavior::Observer => faces(facing, direction),
        _ => false,
    }
}

/// Whether a block with behaviour `behavior` facing `facing` powers its
/// neighbour in `direction` weakly.
pub fn provides_weak_output(behavior: BlockBehavior, facing: Option<Direction>, direction: Direction) -> (result: bool)
    ensures
        result == spec_provides_weak_output(behavior, facing, direction),
{
    match behavior {
        BlockBehavior::RedstoneBlock
        | BlockBehavior::Lever
        | BlockBehavior::Button { .. }
        | BlockBehavior::PressurePlate { .. }
        | BlockBehavior::Target
        | BlockBehavior::TripwireHook
        | BlockBehavior::DetectorRail
        | BlockBehavior::DaylightDetector
        | BlockBehavior::Lectern
        | BlockBehavior::TrappedChest => true,
        BlockBehavior::Torch { wall } => if wall {
            !same_facing(facing, direction)
        } else {
            direction != Direction::Up
        },
        BlockBehavior::Repeater | BlockBehavior::Comparator | BlockBehavior::Observer => same_facing(facing, direction),
        _ => false,
    }
}

/// The face a lever or button hangs on: down on a ceiling, up on a floor,
/// else its facing, north when it has none.
pub open spec fn spec_attached_direction(properties: Seq<(&str, &str)>, facing: Option<Direction>) -> Direction {
    let face = property_of(properties, bytes("face"));
    if face == Some(bytes("ceiling")) {
        Direction::Down
    } else if face == Some(bytes("floor")) {
        Direction::Up
    } else {
        match facing {
            Some(direction) => direction,
            None => Direction::North,
        }
    }
}

/// The face a lever or button hangs on.
pub fn attached_direction(properties: &[(&str, &str)], facing: Option<Direction>) -> (direction: Direction)
    ensures
        direction == spec_attached_direction(properties@, facing),
{
    let face = property(properties, "face");
    let ceiling = match face {
        Some(value) => name_is(value.as_bytes(), "ceiling"),
        None => false,
    };
    let floor = match face {
        Some(value) => name_is(value.as_bytes(), "floor"),
        None => false,
    };
    if ceiling {
        Direction::Down
    } else if floor {
        Direction::Up
    } else {
        match facing {
            Some(direction) => direction,
            None => Direction::North,
        }
    }
}

/// Whether a block with behaviour `behavior`, properties `properties` and
/// facing `facing` powers the block in `direction` strongly.
pub open spec fn spec_provides_strong_output(
    behavior: BlockBehavior,
    properties: Seq<(&str, &str)>,
    facing: Option<Direction>,
    direction: Direction,
) -> bool {
    match behavior {
        BlockBehavior::Torch { .. } => direction == Direction::Down,
        BlockBehavior::Lever | BlockBehavior::Button { .. } => spec_attached_direction(properties, facing) == direction,
        BlockBehavior::PressurePlate { .. }
        | BlockBehavior::DetectorRail
        | BlockBehavior::Lectern
        | BlockBehavior::TrappedChest => direction == Direction::Up,
        BlockBehavior::TripwireHook
        | BlockBehavior::Repeater
        | BlockBehavior::Comparator
        | BlockBehavior::Observer => faces(facing, direction),
        _ => false,
    }
}

/// Whether a block powers the block in `direction` strongly.
pub fn provides_strong_output(
    behavior: BlockBehavior,
    properties: &[(&str, &str)],
    facing: Option<Direction>,
    direction: Direction,
) -> (result: bool)
    ensures
        result == spec_provides_strong_output(behavior, properties@, facing, direction),
{
    match behavior {
        BlockBehavior::Torch { .. } => direction == Direction::Down,
        BlockBehavior::Lever | BlockBehavior::Button { .. } => attached_direction(properties, facing) == direction,
        BlockBehavior::PressurePlate { .. }
        | BlockBehavior::DetectorRail
        | BlockBehavior::Lectern
        | BlockBehavior::TrappedChest => direction == Direction::Up,
        BlockBehavior::TripwireHook
        | BlockBehavior::Repeater
        | BlockBehavior::Comparator
        | BlockBehavior::Observer => same_facing(facing, direction),
        _ => false,
    }
}

} // verus!
