//! Block orientations: an up direction, a front direction on another axis,
//! and a side bias, numbered 0 to 47 as Java numbers them.

use vstd::prelude::*;

use crate::position::{spec_opposite, spec_step, Direction};

verus! {

/// Which side of the front a block's side faces.
#[derive(Clone, Copy, Debug, PartialEq, Eq, Structural)]
pub enum SideBias {
    Left,
    Right,
}

/// The number of a side bias: left 0, right 1.
pub open spec fn spec_bias_ordinal(bias: SideBias) -> u8 {
    match bias {
        SideBias::Left => 0,
        SideBias::Right => 1,
    }
}

impl SideBias {
    /// The number of a side bias: left 0, right 1.
    pub fn ordinal(self) -> (ordinal: u8)
        ensures
            ordinal == spec_bias_ordinal(self),
    {
        match self {
            SideBias::Left => 0,
            SideBias::Right => 1,
        }
    }
}

/// The axis of a direction: 0 for x, 1 for y, 2 for z.
pub open spec fn axis(direction: Direction) -> int {
    match direction {
        Direction::West | Direction::East => 0,
        Direction::Down | Direction::Up => 1,
        Direction::North | Direction::South => 2,
    }
}

/// Whether two directions lie on one axis.
pub open spec fn spec_same_axis(left: Direction, right: Direction) -> bool {
    axis(left) == axis(right)
}

/// Whether two directions lie on one axis.
pub fn same_axis(left: Direction, right: Direction) -> (result: bool)
    ensures
        result == spec_same_axis(left, right),
{
    match (left, right) {
        (Direction::West, Direction::West) | (Direction::West, Direction::East) | (
            Direction::East,
            Direction::West,
        ) | (Direction::East, Direction::East) => true,
        (Direction::Down, Direction::Down) | (Direction::Down, Direction::Up) | (
            Direction::Up,
            Direction::Down,
        ) | (Direction::Up, Direction::Up) => true,
        (Direction::North, Direction::North) | (Direction::North, Direction::South) | (
            Direction::South,
            Direction::North,
        ) | (Direction::South, Direction::South) => true,
        _ => false,
    }
}

/// Whether a direction points along its axis: up, south and east do.
pub open spec fn spec_axis_direction(direction: Direction) -> u8 {
    match direction {
        Direction::Down | Direction::North | Direction::West => 0,
        Direction::Up | Direction::South | Direction::East => 1,
    }
}

/// Whether a direction points along its axis: up, south and east do.
pub fn axis_direction(direction: Direction) -> (result: u8)
    ensures
        result == spec_axis_direction(direction),
{
    match direction {
        Direction::Down | Direction::North | Direction::West => 0,
        Direction::Up | Direction::South | Direction::East => 1,
    }
}

/// The Java ordinal of a direction: down, up, north, south, west, east.
pub open spec fn spec_java_ordinal(direction: Direction) -> u8 {
    match direction {
        Direction::Down => 0,
        Direction::Up => 1,
        Direction::North => 2,
        Direction::South => 3,
        Direction::West => 4,
        Direction::East => 5,
    }
}

/// The Java ordinal of a direction: down, up, north, south, west, east.
pub fn java_ordinal(direction: Direction) -> (ordinal: u8)
    ensures
        ordinal == spec_java_ordinal(direction),
{
    match direction {
        Direction::Down => 0,
        Direction::Up => 1,
        Direction::North => 2,
        Direction::South => 3,
        Direction::West => 4,
        Direction::East => 5,
    }
}

/// The direction with a Java ordinal.
pub open spec fn java_direction(ordinal: int) -> Direction {
    if ordinal == 0 {
        Direction::Down
    } else if ordinal == 1 {
        Direction::Up
    } else if ordinal == 2 {
        Direction::North
    } else if ordinal == 3 {
        Direction::South
    } else if ordinal == 4 {
        Direction::West
    } else {
        Direction::East
    }
}

/// The cross product of two integer vectors.
pub open spec fn spec_cross(left: (int, int, int), right: (int, int, int)) -> (int, int, int) {
    (
        left.1 * right.2 - left.2 * right.1,
        left.2 * right.0 - left.0 * right.2,
        left.0 * right.1 - left.1 * right.0,
    )
}

/// The unit vector of a direction.
pub open spec fn unit(direction: Direction) -> (int, int, int) {
    let (x, y, z) = spec_step(direction);
    (x as int, y as int, z as int)
}

proof fn lemma_unit_product(a: i32, b: i32)
    requires
        -1 <= a <= 1,
        -1 <= b <= 1,
    ensures
        -1 <= a * b <= 1,
{
    assert(-1 <= a * b <= 1) by (nonlinear_arith)
        requires
            -1 <= a <= 1,
            -1 <= b <= 1,
    ;
}

/// The cross product of two vectors, for vectors whose products and
/// differences fit an `i32`.
pub fn cross(left: [i32; 3], right: [i32; 3]) -> (result: [i32; 3])
    requires
        i32::MIN <= left[1] * right[2] <= i32::MAX,
        i32::MIN <= left[2] * right[1] <= i32::MAX,
        i32::MIN <= left[2] * right[0] <= i32::MAX,
        i32::MIN <= left[0] * right[2] <= i32::MAX,
        i32::MIN <= left[0] * right[1] <= i32::MAX,
        i32::MIN <= left[1] * right[0] <= i32::MAX,
        i32::MIN <= left[1] * right[2] - left[2] * right[1] <= i32::MAX,
        i32::MIN <= left[2] * right[0] - left[0] * right[2] <= i32::MAX,
        i32::MIN <= left[0] * right[1] - left[1] * right[0] <= i32::MAX,
    ensures
        (result[0] as int, result[1] as int, result[2] as int) == spec_cross(
            (left[0] as int, left[1] as int, left[2] as int),
            (right[0] as int, right[1] as int, right[2] as int),
        ),
{
    [
        left[1] * right[2] - left[2] * right[1],
        left[2] * right[0] - left[0] * right[2],
        left[0] * right[1] - left[1] * right[0],
    ]
}

/// Whether a vector is the unit vector of one of the six directions.
pub open spec fn unit_vector(v: (int, int, int)) -> bool {
    v == (-1int, 0int, 0int) || v == (1int, 0int, 0int) || v == (0int, -1int, 0int) || v == (0int, 1int, 0int)
        || v == (0int, 0int, -1int) || v == (0int, 0int, 1int)
}

/// The direction of a unit vector.
pub open spec fn spec_direction_from_vector(v: (int, int, int)) -> Direction {
    if v == (-1int, 0int, 0int) {
        Direction::West
    } else if v == (1int, 0int, 0int) {
        Direction::East
    } else if v == (0int, -1int, 0int) {
        Direction::Down
    } else if v == (0int, 1int, 0int) {
        Direction::Up
    } else if v == (0int, 0int, -1int) {
        Direction::North
    } else {
        Direction::South
    }
}

/// The direction of a unit vector; only the six unit vectors name one.
pub fn direction_from_vector(vector: [i32; 3]) -> (direction: Direction)
    requires
        unit_vector((vector[0] as int, vector[1] as int, vector[2] as int)),
    ensures
        direction == spec_direction_from_vector((vector[0] as int, vector[1] as int, vector[2] as int)),
        unit(direction) == (vector[0] as int, vector[1] as int, vector[2] as int),
{
    if vector[0] == -1 && vector[1] == 0 && vector[2] == 0 {
        Direction::West
    } else if vector[0] == 1 && vector[1] == 0 && vector[2] == 0 {
        Direction::East
    } else if vector[0] == 0 && vector[1] == -1 && vector[2] == 0 {
        Direction::Down
    } else if vector[0] == 0 && vector[1] == 1 && vector[2] == 0 {
        Direction::Up
    } else if vector[0] == 0 && vector[1] == 0 && vector[2] == -1 {
        Direction::North
    } else {
        Direction::South
    }
}

/// Two directions on different axes cross to a unit vector.
proof fn lemma_cross_unit(front: Direction, up: Direction)
    requires
        !spec_same_axis(up, front),
    ensures
        unit_vector(spec_cross(unit(front), unit(up))),
{
    match front {
        Direction::Down => {},
        Direction::Up => {},
        Direction::North => {},
        Direction::South => {},
        Direction::West => {},
        Direction::East => {},
    }
}

/// The side of an orientation before its bias: the direction of the cross
/// product of the front and the up vector.
pub open spec fn right_side(front: Direction, up: Direction) -> Direction {
    let c = spec_cross(unit(front), unit(up));
    if c == (-1int, 0int, 0int) {
        Direction::West
    } else if c == (1int, 0int, 0int) {
        Direction::East
    } else if c == (0int, -1int, 0int) {
        Direction::Down
    } else if c == (0int, 1int, 0int) {
        Direction::Up
    } else if c == (0int, 0int, -1int) {
        Direction::North
    } else {
        Direction::South
    }
}

/// The side that an orientation's bias picks.
pub open spec fn spec_side(front: Direction, up: Direction, bias: SideBias) -> Direction {
    match bias {
        SideBias::Right => right_side(front, up),
        SideBias::Left => spec_opposite(right_side(front, up)),
    }
}

/// The number of an orientation: the up direction's Java ordinal, then
/// which of the two other axes the front lies on, then whether the front
/// points along it, then the side bias.
pub open spec fn spec_index(up: Direction, front: Direction, bias: SideBias) -> int {
    let front_axis_key: int = if axis(up) == 1 {
        if axis(front) == 0 {
            1
        } else {
            0
        }
    } else if axis(front) == 1 {
        1
    } else {
        0
    };
    (spec_java_ordinal(up) * 4 + front_axis_key * 2 + spec_axis_direction(front)) * 2
        + spec_bias_ordinal(bias)
}

/// The front that a number gives for an up direction.
pub open spec fn front_of_index(up: Direction, index: int) -> Direction {
    let key = (index / 4) % 2;
    let along = (index / 2) % 2;
    let front_axis = if axis(up) == 1 {
        if key == 1 {
            0int
        } else {
            2int
        }
    } else if key == 1 {
        1int
    } else if axis(up) == 0 {
        2int
    } else {
        0int
    };
    if front_axis == 0 {
        if along == 1 {
            Direction::East
        } else {
            Direction::West
        }
    } else if front_axis == 1 {
        if along == 1 {
            Direction::Up
        } else {
            Direction::Down
        }
    } else if along == 1 {
        Direction::South
    } else {
        Direction::North
    }
}

/// An up direction, a front direction on another axis and a side bias.
#[derive(Clone, Copy, Debug, PartialEq, Eq, Structural)]
pub struct Orientation {
    up: Direction,
    front: Direction,
    side_bias: SideBias,
}

impl Orientation {
    /// Whether the up and front directions lie on different axes, as they
    /// do in every orientation this module makes.
    pub closed spec fn valid(self) -> bool {
        !spec_same_axis(self.up, self.front)
    }

    /// The up direction.
    pub closed spec fn up_of(self) -> Direction {
        self.up
    }

    /// The front direction.
    pub closed spec fn front_of(self) -> Direction {
        self.front
    }

    /// The side bias.
    pub closed spec fn bias_of(self) -> SideBias {
        self.side_bias
    }

    /// A valid orientation has its up and front on different axes.
    pub proof fn lemma_axes_differ(self)
        requires
            self.valid(),
        ensures
            !spec_same_axis(self.up_of(), self.front_of()),
    {
    }

    /// The orientation numbered `index`.
    pub fn from_index(index: u8) -> (orientation: Orientation)
        requires
            index < 48,
        ensures
            orientation.valid(),
            spec_index(orientation.up_of(), orientation.front_of(), orientation.bias_of()) == index,
            (orientation.up_of(), orientation.front_of(), orientation.bias_of()) == decoded(index as int),
    {
        let up = match index / 8 {
            0 => Direction::Down,
            1 => Direction::Up,
            2 => Direction::North,
            3 => Direction::South,
            4 => Direction::West,
            _ => Direction::East,
        };
        let key = (index / 4) % 2;
        let along = (index / 2) % 2;
        let front_axis: u8 = match up {
            Direction::Down | Direction::Up => if key == 1 {
                0
            } else {
                2
            },
            Direction::West | Direction::East => if key == 1 {
                1
            } else {
                2
            },
            Direction::North | Direction::South => if key == 1 {
                1
            } else {
                0
            },
        };
        let front = if front_axis == 0 {
            if along == 1 {
                Direction::East
            } else {
                Direction::West
            }
        } else if front_axis == 1 {
            if along == 1 {
                Direction::Up
            } else {
                Direction::Down
            }
        } else if along == 1 {
            Direction::South
        } else {
            Direction::North
        };
        let side_bias = if index % 2 == 1 {
            SideBias::Right
        } else {
            SideBias::Left
        };
        proof {
            lemma_decode_index(index as int);
        }
        Orientation { up, front, side_bias }
    }

    /// The number of the orientation, below 48.
    pub fn index(self) -> (index: u8)
        requires
            self.valid(),
        ensures
            index == spec_index(self.up_of(), self.front_of(), self.bias_of()),
            index < 48,
    {
        let front_axis_key: u8 = match self.up {
            Direction::Down | Direction::Up => match self.front {
                Direction::West | Direction::East => 1,
                _ => 0,
            },
            _ => match self.front {
                Direction::Down | Direction::Up => 1,
                _ => 0,
            },
        };
        let front_key = front_axis_key << 1 | axis_direction(self.front);
        let up_key = java_ordinal(self.up);
        let bias = self.side_bias.ordinal();
        proof {
            let a = front_axis_key;
            let d = spec_axis_direction(self.front);
            assert(a <= 1 && d <= 1);
            assert((a << 1u8 | d) == a * 2 + d) by (bit_vector)
                requires
                    a <= 1 && d <= 1,
            ;
            let shifted = (up_key << 2u8) as u8;
            assert(shifted == up_key * 4) by (bit_vector)
                requires
                    up_key <= 5,
                    shifted == (up_key << 2u8) as u8,
            ;
            let sum = (shifted + front_key) as u8;
            assert(sum << 1u8 == sum * 2) by (bit_vector)
                requires
                    sum <= 23,
            ;
        }
        (((up_key << 2) + front_key) << 1) + bias
    }

    /// The orientation turned so that `up` is up: the front turns with it
    /// when the new up is the old front or its opposite.
    pub fn with_up(self, up: Direction) -> (orientation: Orientation)
        requires
            self.valid(),
        ensures
            orientation.valid(),
            orientation.up_of() == up,
            orientation.front_of() == (if up == self.front_of() {
                spec_opposite(self.up_of())
            } else if up == spec_opposite(self.front_of()) {
                self.up_of()
            } else {
                self.front_of()
            }),
            orientation.bias_of() == self.bias_of(),
    {
        let mut front = self.front;
        if up == self.front {
            front = self.up.opposite();
        }
        if up == self.front.opposite() {
            front = self.up;
        }
        Orientation { up, front, side_bias: self.side_bias }
    }

    /// The orientation turned so that `front` is the front: the up turns
    /// with it when the new front is the old up or its opposite.
    pub fn with_front(self, front: Direction) -> (orientation: Orientation)
        requires
            self.valid(),
        ensures
            orientation.valid(),
            orientation.front_of() == front,
            orientation.up_of() == (if front == self.up_of() {
                spec_opposite(self.front_of())
            } else if front == spec_opposite(self.up_of()) {
                self.front_of()
            } else {
                self.up_of()
            }),
            orientation.bias_of() == self.bias_of(),
    {
        let mut up = self.up;
        if front == self.up {
            up = self.front.opposite();
        }
        if front == self.up.opposite() {
            up = self.front;
        }
        Orientation { up, front, side_bias: self.side_bias }
    }

    /// The orientation with `front` as front when that keeps the up
    /// direction, else unchanged.
    pub fn with_front_preserve_up(self, front: Direction) -> (orientation: Orientation)
        requires
            self.valid(),
        ensures
            orientation.valid(),
            spec_same_axis(front, self.up_of()) ==> orientation == self,
            !spec_same_axis(front, self.up_of()) ==> orientation.front_of() == front
                && orientation.up_of() == self.up_of() && orientation.bias_of() == self.bias_of(),
    {
        if same_axis(front, self.up) {
            self
        } else {
            self.with_front(front)
        }
    }

    /// The orientation with another side bias.
    pub fn with_side_bias(self, side_bias: SideBias) -> (orientation: Orientation)
        requires
            self.valid(),
        ensures
            orientation.valid(),
            orientation.up_of() == self.up_of(),
            orientation.front_of() == self.front_of(),
            orientation.bias_of() == side_bias,
    {
        Orientation { side_bias, ..self }
    }

    /// The side direction that the bias picks.
    fn side(self) -> (side: Direction)
        requires
            self.valid(),
        ensures
            side == spec_side(self.front_of(), self.up_of(), self.bias_of()),
    {
        let (fx, fy, fz) = self.front.step();
        let (ux, uy, uz) = self.up.step();
        proof {
            lemma_unit_product(fy, uz);
            lemma_unit_product(fz, uy);
            lemma_unit_product(fz, ux);
            lemma_unit_product(fx, uz);
            lemma_unit_product(fx, uy);
            lemma_unit_product(fy, ux);
        }
        let c = cross([fx, fy, fz], [ux, uy, uz]);
        proof {
            self.lemma_axes_differ();
            lemma_cross_unit(self.front, self.up);
        }
        let side = direction_from_vector(c);
        match self.side_bias {
            SideBias::Right => side,
            SideBias::Left => side.opposite(),
        }
    }

    /// The six directions relative to the orientation: back, front, side,
    /// the other side, down and up.
    pub fn directions(self) -> (directions: [Direction; 6])
        requires
            self.valid(),
        ensures
            directions@ == seq![
                spec_opposite(self.front_of()),
                self.front_of(),
                spec_side(self.front_of(), self.up_of(), self.bias_of()),
                spec_opposite(spec_side(self.front_of(), self.up_of(), self.bias_of())),
                spec_opposite(self.up_of()),
                self.up_of(),
            ],
    {
        let side = self.side();
        [self.front.opposite(), self.front, side, side.opposite(), self.up.opposite(), self.up]
    }

    /// The four directions relative to the orientation that are not up or down.
    pub fn horizontal_directions(self) -> (directions: [Direction; 4])
        requires
            self.valid(),
        ensures
            directions@ == seq![
                spec_opposite(self.front_of()),
                self.front_of(),
                spec_side(self.front_of(), self.up_of(), self.bias_of()),
                spec_opposite(spec_side(self.front_of(), self.up_of(), self.bias_of())),
            ],
    {
        let directions = self.directions();
        [directions[0], directions[1], directions[2], directions[3]]
    }

    /// Down and up relative to the orientation.
    pub fn vertical_directions(self) -> (directions: [Direction; 2])
        requires
            self.valid(),
        ensures
            directions@ == seq![spec_opposite(self.up_of()), self.up_of()],
    {
        [self.up.opposite(), self.up]
    }
}

/// The orientation that a number below 48 names.
pub open spec fn decoded(index: int) -> (Direction, Direction, SideBias) {
    let up = java_direction(index / 8);
    (up, front_of_index(up, index), if index % 2 == 1 {
        SideBias::Right
    } else {
        SideBias::Left
    })
}

proof fn lemma_decode_index(index: int)
    requires
        0 <= index < 48,
    ensures
        spec_index(decoded(index).0, decoded(index).1, decoded(index).2) == index,
        !spec_same_axis(decoded(index).0, decoded(index).1),
{
    let u = index / 8;
    let r = index % 8;
    assert(index == u * 8 + r);
    assert((index / 4) % 2 == r / 4);
    assert((index / 2) % 2 == (r / 2) % 2);
    assert(index % 2 == r % 2);
    assert(0 <= u < 6);
    if u == 0 {
    } else if u == 1 {
    } else if u == 2 {
    } else if u == 3 {
    } else if u == 4 {
    } else {
    }
}

proof fn lemma_index_decode(up: Direction, front: Direction, bias: SideBias)
    requires
        !spec_same_axis(up, front),
    ensures
        0 <= spec_index(up, front, bias) < 48,
        decoded(spec_index(up, front, bias)) == (up, front, bias),
{
    let i = spec_index(up, front, bias);
    let key: int = if axis(up) == 1 {
        if axis(front) == 0 {
            1
        } else {
            0
        }
    } else if axis(front) == 1 {
        1
    } else {
        0
    };
    let rest = key * 4 + spec_axis_direction(front) * 2 + spec_bias_ordinal(bias);
    assert(i == spec_java_ordinal(up) * 8 + rest);
    assert(0 <= rest < 8);
    assert(i / 8 == spec_java_ordinal(up));
    assert((i / 4) % 2 == key);
    assert((i / 2) % 2 == spec_axis_direction(front));
    assert(i % 2 == spec_bias_ordinal(bias));
    match up {
        Direction::Down => {},
        Direction::Up => {},
        Direction::North => {},
        Direction::South => {},
        Direction::West => {},
        Direction::East => {},
    }
}

/// Numbering orientations is one to one: every number below 48 names an
/// orientation with that number, and every valid orientation's number names
/// it back.
pub proof fn law_index_round_trip(index: int, orientation: Orientation)
    requires
        0 <= index < 48,
        orientation.valid(),
    ensures
        spec_index(decoded(index).0, decoded(index).1, decoded(index).2) == index,
        0 <= spec_index(orientation.up_of(), orientation.front_of(), orientation.bias_of()) < 48,
        decoded(spec_index(orientation.up_of(), orientation.front_of(), orientation.bias_of())) == (
            orientation.up_of(),
            orientation.front_of(),
            orientation.bias_of(),
        ),
{
    lemma_decode_index(index);
    orientation.lemma_axes_differ();
    lemma_index_decode(orientation.up_of(), orientation.front_of(), orientation.bias_of());
}

/// The side of a valid orientation lies on the third axis, so its six
/// directions are the six directions, each once.
pub proof fn law_directions_distinct(orientation: Orientation)
    requires
        orientation.valid(),
    ensures
        ({
            let front = orientation.front_of();
            let up = orientation.up_of();
            let side = spec_side(front, up, orientation.bias_of());
            &&& axis(side) != axis(front)
            &&& axis(side) != axis(up)
            &&& side != spec_opposite(side)
        }),
{
    orientation.lemma_axes_differ();
    let front = orientation.front_of();
    let up = orientation.up_of();
    match front {
        Direction::Down => {},
        Direction::Up => {},
        Direction::North => {},
        Direction::South => {},
        Direction::West => {},
        Direction::East => {},
    }
}

} // verus!
