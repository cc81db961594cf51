//! Block positions, the six block directions and the identifiers of block
//! states and block kinds.

use vstd::prelude::*;

verus! {

/// One of the six axis-aligned directions.
#[derive(Clone, Copy, Debug, PartialEq, Eq, Structural, Hash)]
pub enum Direction {
    Down,
    Up,
    North,
    South,
    West,
    East,
}

/// The identifier of a registered block state.
#[derive(Clone, Copy, Debug, PartialEq, Eq, Structural, Hash)]
pub struct BlockStateId(pub u32);

/// The identifier of an interned block kind.
#[derive(Clone, Copy, Debug, PartialEq, Eq, Structural, Hash)]
pub struct BlockKindId(pub u32);

/// A block position. Coordinates wrap around at the `i32` limits.
#[derive(Clone, Copy, Debug, PartialEq, Eq, Structural, Hash)]
pub struct BlockPos {
    pub x: i32,
    pub y: i32,
    pub z: i32,
}

/// The unit step of a direction.
pub open spec fn spec_step(direction: Direction) -> (i32, i32, i32) {
    match direction {
        Direction::Down => (0i32, -1i32, 0i32),
        Direction::Up => (0i32, 1i32, 0i32),
        Direction::North => (0i32, 0i32, -1i32),
        Direction::South => (0i32, 0i32, 1i32),
        Direction::West => (-1i32, 0i32, 0i32),
        Direction::East => (1i32, 0i32, 0i32),
    }
}

/// The opposite direction.
pub open spec fn spec_opposite(direction: Direction) -> Direction {
    match direction {
        Direction::Down => Direction::Up,
        Direction::Up => Direction::Down,
        Direction::North => Direction::South,
        Direction::South => Direction::North,
        Direction::West => Direction::East,
        Direction::East => Direction::West,
    }
}

/// A quarter turn clockwise seen from above; vertical directions are kept.
pub open spec fn spec_clockwise(direction: Direction) -> Direction {
    match direction {
        Direction::North => Direction::East,
        Direction::East => Direction::South,
        Direction::South => Direction::West,
        Direction::West => Direction::North,
        other => other,
    }
}

/// A quarter turn counter-clockwise seen from above; vertical directions are kept.
pub open spec fn spec_counter_clockwise(direction: Direction) -> Direction {
    match direction {
        Direction::North => Direction::West,
        Direction::West => Direction::South,
        Direction::South => Direction::East,
        Direction::East => Direction::North,
        other => other,
    }
}

/// The position offset by `(dx, dy, dz)`, with two's complement wrap-around.
pub open spec fn spec_offset(pos: BlockPos, dx: i32, dy: i32, dz: i32) -> BlockPos {
    BlockPos { x: pos.x.wrapping_add(dx), y: pos.y.wrapping_add(dy), z: pos.z.wrapping_add(dz) }
}

/// The neighbouring position in `direction`.
pub open spec fn spec_relative(pos: BlockPos, direction: Direction) -> BlockPos {
    let (dx, dy, dz) = spec_step(direction);
    spec_offset(pos, dx, dy, dz)
}

/// The strict lexicographic order of positions by `x`, then `y`, then `z`.
pub open spec fn pos_lt(a: BlockPos, b: BlockPos) -> bool {
    a.x < b.x || (a.x == b.x && (a.y < b.y || (a.y == b.y && a.z < b.z)))
}

/// The direction of a numbered slot of the Java neighbour update order.
pub open spec fn spec_update_order(index: int) -> Direction {
    if index == 0 {
        Direction::West
    } else if index == 1 {
        Direction::East
    } else if index == 2 {
        Direction::Down
    } else if index == 3 {
        Direction::Up
    } else if index == 4 {
        Direction::North
    } else {
        Direction::South
    }
}

/// The direction of a numbered slot of the horizontal order.
pub open spec fn spec_horizontal(index: int) -> Direction {
    if index == 0 {
        Direction::North
    } else if index == 1 {
        Direction::East
    } else if index == 2 {
        Direction::South
    } else {
        Direction::West
    }
}

impl Direction {
    /// The Java neighbour update order: west, east, down, up, north, south.
    pub fn update_order() -> (order: [Direction; 6])
        ensures
            forall|i: int| 0 <= i < 6 ==> #[trigger] order@[i] == spec_update_order(i),
    {
        [Direction::West, Direction::East, Direction::Down, Direction::Up, Direction::North, Direction::South]
    }

    /// The horizontal directions in the order north, east, south, west.
    pub fn horizontal() -> (order: [Direction; 4])
        ensures
            forall|i: int| 0 <= i < 4 ==> #[trigger] order@[i] == spec_horizontal(i),
    {
        [Direction::North, Direction::East, Direction::South, Direction::West]
    }

    /// The opposite direction.
    pub fn opposite(self) -> (result: Direction)
        ensures
            result == spec_opposite(self),
    {
        match self {
            Direction::Down => Direction::Up,
            Direction::Up => Direction::Down,
            Direction::North => Direction::South,
            Direction::South => Direction::North,
            Direction::West => Direction::East,
            Direction::East => Direction::West,
        }
    }

    /// A quarter turn clockwise seen from above; vertical directions are kept.
    pub fn clockwise(self) -> (result: Direction)
        ensures
            result == spec_clockwise(self),
    {
        match self {
            Direction::North => Direction::East,
            Direction::East => Direction::South,
            Direction::South => Direction::West,
            Direction::West => Direction::North,
            other => other,
        }
    }

    /// A quarter turn counter-clockwise seen from above; vertical directions are kept.
    pub fn counter_clockwise(self) -> (result: Direction)
        ensures
            result == spec_counter_clockwise(self),
    {
        match self {
            Direction::North => Direction::West,
            Direction::West => Direction::South,
            Direction::South => Direction::East,
            Direction::East => Direction::North,
            other => other,
        }
    }

    /// The unit step `(dx, dy, dz)` of the direction.
    pub fn step(self) -> (result: (i32, i32, i32))
        ensures
            result == spec_step(self),
    {
        match self {
            Direction::Down => (0, -1, 0),
            Direction::Up => (0, 1, 0),
            Direction::North => (0, 0, -1),
            Direction::South => (0, 0, 1),
            Direction::West => (-1, 0, 0),
            Direction::East => (1, 0, 0),
        }
    }
}

impl BlockPos {
    /// The origin.
    pub fn zero() -> (pos: BlockPos)
        ensures
            pos == (BlockPos { x: 0, y: 0, z: 0 }),
    {
        BlockPos { x: 0, y: 0, z: 0 }
    }

    /// The position with the given coordinates.
    pub fn new(x: i32, y: i32, z: i32) -> (pos: BlockPos)
        ensures
            pos == (BlockPos { x, y, z }),
    {
        BlockPos { x, y, z }
    }

    /// The position offset by `(dx, dy, dz)`, wrapping at the `i32` limits.
    pub fn offset(self, dx: i32, dy: i32, dz: i32) -> (pos: BlockPos)
        ensures
            pos == spec_offset(self, dx, dy, dz),
    {
        BlockPos {
            x: self.x.wrapping_add(dx),
            y: self.y.wrapping_add(dy),
            z: self.z.wrapping_add(dz),
        }
    }

    /// The neighbouring position in `direction`.
    pub fn relative(self, direction: Direction) -> (pos: BlockPos)
        ensures
            pos == spec_relative(self, direction),
    {
        let (dx, dy, dz) = direction.step();
        self.offset(dx, dy, dz)
    }

    /// Whether `self` comes strictly before `other` by `x`, then `y`, then `z`.
    pub fn precedes(&self, other: &BlockPos) -> (result: bool)
        ensures
            result == pos_lt(*self, *other),
    {
        self.x < other.x || (self.x == other.x && (self.y < other.y || (self.y == other.y
            && self.z < other.z)))
    }

    /// Whether two positions are equal.
    pub fn same(&self, other: &BlockPos) -> (result: bool)
        ensures
            result == (*self == *other),
    {
        self.x == other.x && self.y == other.y && self.z == other.z
    }
}

} // verus!
