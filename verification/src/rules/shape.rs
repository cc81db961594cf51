//! Block shapes: the families whose shape follows their neighbours, rail
//! shapes and the blocks that never connect.

use vstd::prelude::*;

use crate::position::{spec_opposite, spec_relative, BlockPos, Direction};
use crate::registry::BlockBehavior;
use crate::text::{bytes, contains, lemma_ascii_bytes, lemma_differ_at, ends_with, name_contains, name_ends, name_is, path, path_of, property, property_of};

verus! {

/// A family of blocks whose shape follows their neighbours.
#[derive(Clone, Copy, Debug, PartialEq, Eq, Structural)]
pub enum ShapeFamily {
    Wire,
    Tripwire,
    Fence { wooden: bool },
    Pane,
    Wall,
    Rail { straight: bool },
}

/// The shape family of a block named `name`.
pub open spec fn spec_shape_family(name: Seq<u8>) -> Option<ShapeFamily> {
    let p = path(name);
    if p == bytes("redstone_wire") {
        Some(ShapeFamily::Wire)
    } else if p == bytes("tripwire") {
        Some(ShapeFamily::Tripwire)
    } else if ends_with(p, bytes("_fence")) {
        Some(ShapeFamily::Fence { wooden: p != bytes("nether_brick_fence") })
    } else if contains(p, bytes("glass_pane")) || ends_with(p, bytes("_bars")) {
        Some(ShapeFamily::Pane)
    } else if ends_with(p, bytes("_wall")) {
        Some(ShapeFamily::Wall)
    } else if p == bytes("rail") || ends_with(p, bytes("_rail")) {
        Some(ShapeFamily::Rail { straight: p != bytes("rail") })
    } else {
        None
    }
}

/// The shape family of a block named `name`: wire, tripwire, fences (all
/// wooden but the nether brick fence), panes and bars, walls, and rails
/// (all straight but the plain rail).
pub fn shape_family(name: &str) -> (family: Option<ShapeFamily>)
    ensures
        family == spec_shape_family(bytes(name)),
{
    let p = path_of(name);
    if name_is(p, "redstone_wire") {
        Some(ShapeFamily::Wire)
    } else if name_is(p, "tripwire") {
        Some(ShapeFamily::Tripwire)
    } else if name_ends(p, "_fence") {
        Some(ShapeFamily::Fence { wooden: !name_is(p, "nether_brick_fence") })
    } else if name_contains(p, "glass_pane") || name_ends(p, "_bars") {
        Some(ShapeFamily::Pane)
    } else if name_ends(p, "_wall") {
        Some(ShapeFamily::Wall)
    } else if name_is(p, "rail") || name_ends(p, "_rail") {
        Some(ShapeFamily::Rail { straight: !name_is(p, "rail") })
    } else {
        None
    }
}

/// Whether a block named `name` is a rail.
pub open spec fn spec_is_rail_name(name: Seq<u8>) -> bool {
    path(name) == bytes("rail") || ends_with(path(name), bytes("_rail"))
}

/// Whether a block named `name` is a rail.
pub fn is_rail_name(name: &str) -> (result: bool)
    ensures
        result == spec_is_rail_name(bytes(name)),
{
    let p = path_of(name);
    name_is(p, "rail") || name_ends(p, "_rail")
}

/// Whether a rail named `name` can only run straight: every rail but the plain one.
pub fn rail_is_straight(name: &str) -> (result: bool)
    ensures
        result == (path(bytes(name)) != bytes("rail")),
{
    !name_is(path_of(name), "rail")
}

/// The shape of a rail.
#[derive(Clone, Copy, Debug, PartialEq, Eq, Structural)]
pub enum RailShape {
    NorthSouth,
    EastWest,
    AscendingEast,
    AscendingWest,
    AscendingNorth,
    AscendingSouth,
    SouthEast,
    SouthWest,
    NorthWest,
    NorthEast,
}

/// The property value of a rail shape.
pub open spec fn spec_rail_shape_name(shape: RailShape) -> Seq<u8> {
    match shape {
        RailShape::NorthSouth => bytes("north_south"),
        RailShape::EastWest => bytes("east_west"),
        RailShape::AscendingEast => bytes("ascending_east"),
        RailShape::AscendingWest => bytes("ascending_west"),
        RailShape::AscendingNorth => bytes("ascending_north"),
        RailShape::AscendingSouth => bytes("ascending_south"),
        RailShape::SouthEast => bytes("south_east"),
        RailShape::SouthWest => bytes("south_west"),
        RailShape::NorthWest => bytes("north_west"),
        RailShape::NorthEast => bytes("north_east"),
    }
}

/// The rail shape of a property value; north-south for anything unknown.
pub open spec fn spec_parse_rail_shape(value: Seq<u8>) -> RailShape {
    if value == bytes("east_west") {
        RailShape::EastWest
    } else if value == bytes("ascending_east") {
        RailShape::AscendingEast
    } else if value == bytes("ascending_west") {
        RailShape::AscendingWest
    } else if value == bytes("ascending_north") {
        RailShape::AscendingNorth
    } else if value == bytes("ascending_south") {
        RailShape::AscendingSouth
    } else if value == bytes("south_east") {
        RailShape::SouthEast
    } else if value == bytes("south_west") {
        RailShape::SouthWest
    } else if value == bytes("north_west") {
        RailShape::NorthWest
    } else if value == bytes("north_east") {
        RailShape::NorthEast
    } else {
        RailShape::NorthSouth
    }
}

/// The two positions a rail of a shape at `pos` connects to.
pub open spec fn spec_rail_connections(shape: RailShape, pos: BlockPos) -> (BlockPos, BlockPos) {
    match shape {
        RailShape::NorthSouth => (spec_relative(pos, Direction::North), spec_relative(pos, Direction::South)),
        RailShape::EastWest => (spec_relative(pos, Direction::West), spec_relative(pos, Direction::East)),
        RailShape::AscendingEast => (spec_relative(pos, Direction::West), spec_relative(spec_relative(pos, Direction::East), Direction::Up)),
        RailShape::AscendingWest => (spec_relative(spec_relative(pos, Direction::West), Direction::Up), spec_relative(pos, Direction::East)),
        RailShape::AscendingNorth => (spec_relative(spec_relative(pos, Direction::North), Direction::Up), spec_relative(pos, Direction::South)),
        RailShape::AscendingSouth => (spec_relative(pos, Direction::North), spec_relative(spec_relative(pos, Direction::South), Direction::Up)),
        RailShape::SouthEast => (spec_relative(pos, Direction::East), spec_relative(pos, Direction::South)),
        RailShape::SouthWest => (spec_relative(pos, Direction::West), spec_relative(pos, Direction::South)),
        RailShape::NorthWest => (spec_relative(pos, Direction::West), spec_relative(pos, Direction::North)),
        RailShape::NorthEast => (spec_relative(pos, Direction::East), spec_relative(pos, Direction::North)),
    }
}

impl RailShape {
    /// The rail shape of a property value; north-south for anything unknown.
    pub fn parse(value: &str) -> (shape: RailShape)
        ensures
            shape == spec_parse_rail_shape(bytes(value)),
    {
        let value = value.as_bytes();
        if name_is(value, "east_west") {
            RailShape::EastWest
        } else if name_is(value, "ascending_east") {
            RailShape::AscendingEast
        } else if name_is(value, "ascending_west") {
            RailShape::AscendingWest
        } else if name_is(value, "ascending_north") {
            RailShape::AscendingNorth
        } else if name_is(value, "ascending_south") {
            RailShape::AscendingSouth
        } else if name_is(value, "south_east") {
            RailShape::SouthEast
        } else if name_is(value, "south_west") {
            RailShape::SouthWest
        } else if name_is(value, "north_west") {
            RailShape::NorthWest
        } else if name_is(value, "north_east") {
            RailShape::NorthEast
        } else {
            RailShape::NorthSouth
        }
    }

    /// The property value of the shape.
    pub fn name(self) -> (name: &'static str)
        ensures
            bytes(name) == spec_rail_shape_name(self),
    {
        match self {
            RailShape::NorthSouth => "north_south",
            RailShape::EastWest => "east_west",
            RailShape::AscendingEast => "ascending_east",
            RailShape::AscendingWest => "ascending_west",
            RailShape::AscendingNorth => "ascending_north",
            RailShape::AscendingSouth => "ascending_south",
            RailShape::SouthEast => "south_east",
            RailShape::SouthWest => "south_west",
            RailShape::NorthWest => "north_west",
            RailShape::NorthEast => "north_east",
        }
    }

    /// The two positions a rail of this shape at `pos` connects to.
    pub fn connections(self, pos: BlockPos) -> (positions: [BlockPos; 2])
        ensures
            (positions[0], positions[1]) == spec_rail_connections(self, pos),
    {
        match self {
            RailShape::NorthSouth => [pos.relative(Direction::North), pos.relative(Direction::South)],
            RailShape::EastWest => [pos.relative(Direction::West), pos.relative(Direction::East)],
            RailShape::AscendingEast => [pos.relative(Direction::West), pos.relative(Direction::East).relative(Direction::Up)],
            RailShape::AscendingWest => [pos.relative(Direction::West).relative(Direction::Up), pos.relative(Direction::East)],
            RailShape::AscendingNorth => [pos.relative(Direction::North).relative(Direction::Up), pos.relative(Direction::South)],
            RailShape::AscendingSouth => [pos.relative(Direction::North), pos.relative(Direction::South).relative(Direction::Up)],
            RailShape::SouthEast => [pos.relative(Direction::East), pos.relative(Direction::South)],
            RailShape::SouthWest => [pos.relative(Direction::West), pos.relative(Direction::South)],
            RailShape::NorthWest => [pos.relative(Direction::West), pos.relative(Direction::North)],
            RailShape::NorthEast => [pos.relative(Direction::East), pos.relative(Direction::North)],
        }
    }
}

/// Whether two positions share a rail column: the same x and z.
pub fn same_rail_column(left: BlockPos, right: BlockPos) -> (result: bool)
    ensures
        result == (left.x == right.x && left.z == right.z),
{
    left.x == right.x && left.z == right.z
}

/// Whether any of `positions` shares a rail column with `pos`.
pub fn contains_rail_column(positions: &[BlockPos], pos: BlockPos) -> (result: bool)
    ensures
        result == exists|i: int| 0 <= i < positions@.len() && positions@[i].x == pos.x && positions@[i].z == pos.z,
{
    let mut k: usize = 0;
    while k < positions.len()
        invariant
            k <= positions@.len(),
            forall|i: int| 0 <= i < k ==> !(positions@[i].x == pos.x && positions@[i].z == pos.z),
        decreases positions@.len() - k,
    {
        if same_rail_column(positions[k], pos) {
            return true;
        }
        k += 1;
    }
    false
}

/// Whether a block path is one of the single blocks that fences, panes and walls never join.
pub open spec fn never_connects(path: Seq<u8>) -> bool {
    path == bytes("barrier")
        || path == bytes("carved_pumpkin")
        || path == bytes("jack_o_lantern")
        || path == bytes("melon")
        || path == bytes("pumpkin")
}

fn is_never_connecting(path: &[u8]) -> (result: bool)
    ensures
        result == never_connects(path@),
{
    name_is(path, "barrier")
        || name_is(path, "carved_pumpkin")
        || name_is(path, "jack_o_lantern")
        || name_is(path, "melon")
        || name_is(path, "pumpkin")
}

/// Whether fences, panes and walls never join a block with path `path`,
/// sturdy or not: leaves, shulker boxes and a few single blocks.
pub open spec fn spec_connection_exception(path: Seq<u8>) -> bool {
    ends_with(path, bytes("_leaves")) || ends_with(path, bytes("_shulker_box")) || never_connects(path)
}

/// Whether fences, panes and walls never join a block with path `path`.
pub fn connection_exception(path: &str) -> (result: bool)
    ensures
        result == spec_connection_exception(bytes(path)),
{
    let p = path.as_bytes();
    name_ends(p, "_leaves") || name_ends(p, "_shulker_box") || is_never_connecting(p)
}

/// Whether a behaviour makes a block a redstone signal source for shapes.
pub open spec fn spec_is_signal_source(behavior: BlockBehavior) -> bool {
    match behavior {
        BlockBehavior::Lever | BlockBehavior::Button { .. } | BlockBehavior::RedstoneBlock
        | BlockBehavior::Torch { .. } | BlockBehavior::Target | BlockBehavior::PressurePlate { .. }
        | BlockBehavior::TripwireHook | BlockBehavior::DetectorRail | BlockBehavior::DaylightDetector
        | BlockBehavior::Lectern | BlockBehavior::TrappedChest => true,
        _ => false,
    }
}

/// Whether a behaviour makes a block a redstone signal source for shapes:
/// levers, buttons, redstone blocks, torches, targets, pressure plates,
/// tripwire hooks, detector rails, daylight detectors, lecterns and
/// trapped chests.
pub fn is_signal_source(behavior: &BlockBehavior) -> (result: bool)
    ensures
        result == spec_is_signal_source(*behavior),
{
    match behavior {
        BlockBehavior::Lever | BlockBehavior::Button { .. } | BlockBehavior::RedstoneBlock
        | BlockBehavior::Torch { .. } | BlockBehavior::Target | BlockBehavior::PressurePlate { .. }
        | BlockBehavior::TripwireHook | BlockBehavior::DetectorRail | BlockBehavior::DaylightDetector
        | BlockBehavior::Lectern | BlockBehavior::TrappedChest => true,
        _ => false,
    }
}

/// The axis of a direction as a fence gate sees it: 0 for x, 1 for y, 2 for z.
pub fn facing_axis(direction: Direction) -> (axis: u8)
    ensures
        axis as int == crate::orientation::axis(direction),
{
    match direction {
        Direction::West | Direction::East => 0,
        Direction::Down | Direction::Up => 1,
        Direction::North | Direction::South => 2,
    }
}

/// The property value of a direction.
pub open spec fn spec_direction_name(direction: Direction) -> Seq<u8> {
    match direction {
        Direction::West => bytes("west"),
        Direction::East => bytes("east"),
        Direction::Down => bytes("down"),
        Direction::Up => bytes("up"),
        Direction::North => bytes("north"),
        Direction::South => bytes("south"),
    }
}

/// The property value of a direction.
pub fn direction_name(direction: Direction) -> (name: &'static str)
    ensures
        bytes(name) == spec_direction_name(direction),
{
    match direction {
        Direction::West => "west",
        Direction::East => "east",
        Direction::Down => "down",
        Direction::Up => "up",
        Direction::North => "north",
        Direction::South => "south",
    }
}

/// The direction a property value names, if it names one.
pub open spec fn spec_direction_named(value: Seq<u8>) -> Option<Direction> {
    if value == bytes("west") {
        Some(Direction::West)
    } else if value == bytes("east") {
        Some(Direction::East)
    } else if value == bytes("down") {
        Some(Direction::Down)
    } else if value == bytes("up") {
        Some(Direction::Up)
    } else if value == bytes("north") {
        Some(Direction::North)
    } else if value == bytes("south") {
        Some(Direction::South)
    } else {
        None
    }
}

/// The direction that the first property named `key` names, if any.
pub open spec fn spec_direction_property(properties: Seq<(&str, &str)>, key: Seq<u8>) -> Option<Direction> {
    match property_of(properties, key) {
        Some(value) => spec_direction_named(value),
        None => None,
    }
}

/// The direction that the first property named `key` names, if any.
pub fn direction_property(properties: &[(&str, &str)], key: &str) -> (direction: Option<Direction>)
    ensures
        direction == spec_direction_property(properties@, bytes(key)),
{
    let value = match property(properties, key) {
        Some(value) => value.as_bytes(),
        None => {
            return None;
        },
    };
    if name_is(value, "west") {
        Some(Direction::West)
    } else if name_is(value, "east") {
        Some(Direction::East)
    } else if name_is(value, "down") {
        Some(Direction::Down)
    } else if name_is(value, "up") {
        Some(Direction::Up)
    } else if name_is(value, "north") {
        Some(Direction::North)
    } else if name_is(value, "south") {
        Some(Direction::South)
    } else {
        None
    }
}


/// A direction's property value names that direction again.
pub proof fn law_direction_name_round_trip(direction: Direction)
    ensures
        spec_direction_named(spec_direction_name(direction)) == Some(direction),
{
    reveal_strlit("west");
    reveal_strlit("east");
    reveal_strlit("down");
    reveal_strlit("up");
    reveal_strlit("north");
    reveal_strlit("south");
    lemma_ascii_bytes("west");
    lemma_ascii_bytes("east");
    lemma_ascii_bytes("down");
    lemma_ascii_bytes("up");
    lemma_ascii_bytes("north");
    lemma_ascii_bytes("south");
    assert(bytes("west")[0] != bytes("east")[0]);
    assert(bytes("west")[0] != bytes("down")[0]);
    assert(bytes("east")[0] != bytes("down")[0]);
    assert(bytes("west").len() != bytes("up").len());
    assert(bytes("east").len() != bytes("up").len());
    assert(bytes("down").len() != bytes("up").len());
    assert(bytes("west").len() != bytes("north").len());
    assert(bytes("east").len() != bytes("north").len());
    assert(bytes("down").len() != bytes("north").len());
    assert(bytes("up").len() != bytes("north").len());
    assert(bytes("north")[0] != bytes("south")[0]);
    assert(bytes("west").len() != bytes("south").len());
    assert(bytes("east").len() != bytes("south").len());
    assert(bytes("down").len() != bytes("south").len());
    assert(bytes("up").len() != bytes("south").len());
}


/// Whether a direction lies in the horizontal plane.
pub open spec fn horizontal(direction: Direction) -> bool {
    direction != Direction::Up && direction != Direction::Down
}

/// A flat rail connects the two horizontal neighbours that its property
/// value names, two direction names joined by an underscore; an ascending
/// rail climbs toward the side it names and leaves on the opposite side.
pub proof fn law_rail_connections_named(shape: RailShape, pos: BlockPos)
    ensures
        ({
            let (first, second) = spec_rail_connections(shape, pos);
            let name = spec_rail_shape_name(shape);
            ||| exists|a: Direction, b: Direction|
                #![trigger spec_direction_name(a), spec_direction_name(b)]
                horizontal(a) && horizontal(b) && name == spec_direction_name(a) + seq![95u8] + spec_direction_name(b) && (
                (first == spec_relative(pos, a) && second == spec_relative(pos, b)) || (first == spec_relative(pos, b)
                    && second == spec_relative(pos, a)))
            ||| exists|d: Direction|
                #![trigger spec_direction_name(d)]
                horizontal(d) && name == bytes("ascending") + seq![95u8] + spec_direction_name(d) && ((first
                    == spec_relative(spec_relative(pos, d), Direction::Up) && second == spec_relative(pos, spec_opposite(d)))
                    || (second == spec_relative(spec_relative(pos, d), Direction::Up) && first == spec_relative(
                    pos,
                    spec_opposite(d),
                )))
        }),
{
    reveal_strlit("west");
    reveal_strlit("east");
    reveal_strlit("north");
    reveal_strlit("south");
    reveal_strlit("ascending");
    lemma_ascii_bytes("west");
    lemma_ascii_bytes("east");
    lemma_ascii_bytes("north");
    lemma_ascii_bytes("south");
    lemma_ascii_bytes("ascending");
    let name = spec_rail_shape_name(shape);
    let (a, b, d, flat) = match shape {
        RailShape::NorthSouth => {
            reveal_strlit("north_south");
            lemma_ascii_bytes("north_south");
            (Direction::North, Direction::South, Direction::North, true)
        },
        RailShape::EastWest => {
            reveal_strlit("east_west");
            lemma_ascii_bytes("east_west");
            (Direction::East, Direction::West, Direction::North, true)
        },
        RailShape::SouthEast => {
            reveal_strlit("south_east");
            lemma_ascii_bytes("south_east");
            (Direction::South, Direction::East, Direction::North, true)
        },
        RailShape::SouthWest => {
            reveal_strlit("south_west");
            lemma_ascii_bytes("south_west");
            (Direction::South, Direction::West, Direction::North, true)
        },
        RailShape::NorthWest => {
            reveal_strlit("north_west");
            lemma_ascii_bytes("north_west");
            (Direction::North, Direction::West, Direction::North, true)
        },
        RailShape::NorthEast => {
            reveal_strlit("north_east");
            lemma_ascii_bytes("north_east");
            (Direction::North, Direction::East, Direction::North, true)
        },
        RailShape::AscendingEast => {
            reveal_strlit("ascending_east");
            lemma_ascii_bytes("ascending_east");
            (Direction::North, Direction::North, Direction::East, false)
        },
        RailShape::AscendingWest => {
            reveal_strlit("ascending_west");
            lemma_ascii_bytes("ascending_west");
            (Direction::North, Direction::North, Direction::West, false)
        },
        RailShape::AscendingNorth => {
            reveal_strlit("ascending_north");
            lemma_ascii_bytes("ascending_north");
            (Direction::North, Direction::North, Direction::North, false)
        },
        RailShape::AscendingSouth => {
            reveal_strlit("ascending_south");
            lemma_ascii_bytes("ascending_south");
            (Direction::North, Direction::North, Direction::South, false)
        },
    };
    if flat {
        assert(name =~= spec_direction_name(a) + seq![95u8] + spec_direction_name(b));
    } else {
        assert(name =~= bytes("ascending") + seq![95u8] + spec_direction_name(d));
    }
}


/// The property value of a rail shape reads back as that shape.
pub proof fn law_rail_shape_name_round_trip(shape: RailShape)
    ensures
        spec_parse_rail_shape(spec_rail_shape_name(shape)) == shape,
{
    reveal_strlit("north_south");
    lemma_ascii_bytes("north_south");
    reveal_strlit("east_west");
    lemma_ascii_bytes("east_west");
    reveal_strlit("ascending_east");
    lemma_ascii_bytes("ascending_east");
    reveal_strlit("ascending_west");
    lemma_ascii_bytes("ascending_west");
    reveal_strlit("ascending_north");
    lemma_ascii_bytes("ascending_north");
    reveal_strlit("ascending_south");
    lemma_ascii_bytes("ascending_south");
    reveal_strlit("south_east");
    lemma_ascii_bytes("south_east");
    reveal_strlit("south_west");
    lemma_ascii_bytes("south_west");
    reveal_strlit("north_west");
    lemma_ascii_bytes("north_west");
    reveal_strlit("north_east");
    lemma_ascii_bytes("north_east");
    lemma_differ_at(bytes("ascending_west"), bytes("ascending_east"), 10);
    lemma_differ_at(bytes("ascending_south"), bytes("ascending_north"), 10);
    lemma_differ_at(bytes("south_west"), bytes("south_east"), 6);
    lemma_differ_at(bytes("north_west"), bytes("south_east"), 0);
    lemma_differ_at(bytes("north_west"), bytes("south_west"), 0);
    lemma_differ_at(bytes("north_east"), bytes("south_east"), 0);
    lemma_differ_at(bytes("north_east"), bytes("south_west"), 0);
    lemma_differ_at(bytes("north_east"), bytes("north_west"), 6);
}

} // verus!
