//! Rails that carry power along their axis: the axis of a rail shape and
//! the next rail position along it.

use vstd::prelude::*;

use crate::position::{spec_offset, BlockPos};
use crate::text::{bytes, name_is};

verus! {

/// The horizontal axis a straight rail runs along.
#[derive(Clone, Copy, Debug, PartialEq, Eq, Structural)]
pub enum RailAxis {
    EastWest,
    NorthSouth,
}

/// The axis of a rail shape; none for curves and for a missing shape.
pub open spec fn spec_rail_axis(shape: Option<Seq<u8>>) -> Option<RailAxis> {
    match shape {
        None => None,
        Some(s) => if s == bytes("east_west") || s == bytes("ascending_east") || s == bytes("ascending_west") {
            Some(RailAxis::EastWest)
        } else if s == bytes("north_south") || s == bytes("ascending_north") || s == bytes(
            "ascending_south",
        ) {
            Some(RailAxis::NorthSouth)
        } else {
            None
        },
    }
}

/// The bytes of an optional string.
pub open spec fn option_bytes(value: Option<&str>) -> Option<Seq<u8>> {
    match value {
        Some(value) => Some(bytes(value)),
        None => None,
    }
}

/// The axis of a rail shape; none for curves and for a missing shape.
pub fn rail_axis(shape: Option<&str>) -> (axis: Option<RailAxis>)
    ensures
        axis == spec_rail_axis(option_bytes(shape)),
{
    let s = match shape {
        Some(s) => s.as_bytes(),
        None => {
            return None;
        },
    };
    if name_is(s, "east_west") || name_is(s, "ascending_east") || name_is(s, "ascending_west") {
        Some(RailAxis::EastWest)
    } else if name_is(s, "north_south") || name_is(s, "ascending_north") || name_is(s, "ascending_south") {
        Some(RailAxis::NorthSouth)
    } else {
        None
    }
}

/// The step, axis and whether to look below for the next rail along a
/// rail shape, forward or back; none for curves.
pub open spec fn rail_step(shape: Seq<u8>, forward: bool) -> Option<(i32, i32, i32, RailAxis, bool)> {
    if shape == bytes("north_south") && forward {
        Some((0i32, 0i32, 1i32, RailAxis::NorthSouth, true))
    } else if shape == bytes("north_south") && !forward {
        Some((0i32, 0i32, -1i32, RailAxis::NorthSouth, true))
    } else if shape == bytes("east_west") && forward {
        Some((-1i32, 0i32, 0i32, RailAxis::EastWest, true))
    } else if shape == bytes("east_west") && !forward {
        Some((1i32, 0i32, 0i32, RailAxis::EastWest, true))
    } else if shape == bytes("ascending_east") && forward {
        Some((-1i32, 0i32, 0i32, RailAxis::EastWest, true))
    } else if shape == bytes("ascending_east") && !forward {
        Some((1i32, 1i32, 0i32, RailAxis::EastWest, false))
    } else if shape == bytes("ascending_west") && forward {
        Some((-1i32, 1i32, 0i32, RailAxis::EastWest, false))
    } else if shape == bytes("ascending_west") && !forward {
        Some((1i32, 0i32, 0i32, RailAxis::EastWest, true))
    } else if shape == bytes("ascending_north") && forward {
        Some((0i32, 0i32, 1i32, RailAxis::NorthSouth, true))
    } else if shape == bytes("ascending_north") && !forward {
        Some((0i32, 1i32, -1i32, RailAxis::NorthSouth, false))
    } else if shape == bytes("ascending_south") && forward {
        Some((0i32, 1i32, 1i32, RailAxis::NorthSouth, false))
    } else if shape == bytes("ascending_south") && !forward {
        Some((0i32, 0i32, -1i32, RailAxis::NorthSouth, true))
    } else {
        None
    }
}

fn rail_step_of(shape: &[u8], forward: bool) -> (step: Option<(i32, i32, i32, RailAxis, bool)>)
    ensures
        step == rail_step(shape@, forward),
{
    if name_is(shape, "north_south") && forward {
        Some((0i32, 0i32, 1i32, RailAxis::NorthSouth, true))
    } else if name_is(shape, "north_south") && !forward {
        Some((0i32, 0i32, -1i32, RailAxis::NorthSouth, true))
    } else if name_is(shape, "east_west") && forward {
        Some((-1i32, 0i32, 0i32, RailAxis::EastWest, true))
    } else if name_is(shape, "east_west") && !forward {
        Some((1i32, 0i32, 0i32, RailAxis::EastWest, true))
    } else if name_is(shape, "ascending_east") && forward {
        Some((-1i32, 0i32, 0i32, RailAxis::EastWest, true))
    } else if name_is(shape, "ascending_east") && !forward {
        Some((1i32, 1i32, 0i32, RailAxis::EastWest, false))
    } else if name_is(shape, "ascending_west") && forward {
        Some((-1i32, 1i32, 0i32, RailAxis::EastWest, false))
    } else if name_is(shape, "ascending_west") && !forward {
        Some((1i32, 0i32, 0i32, RailAxis::EastWest, true))
    } else if name_is(shape, "ascending_north") && forward {
        Some((0i32, 0i32, 1i32, RailAxis::NorthSouth, true))
    } else if name_is(shape, "ascending_north") && !forward {
        Some((0i32, 1i32, -1i32, RailAxis::NorthSouth, false))
    } else if name_is(shape, "ascending_south") && forward {
        Some((0i32, 1i32, 1i32, RailAxis::NorthSouth, false))
    } else if name_is(shape, "ascending_south") && !forward {
        Some((0i32, 0i32, -1i32, RailAxis::NorthSouth, true))
    } else {
        None
    }
}

/// The next rail position from `pos` along a rail with shape `shape`,
/// forward or back, with the axis it runs along and whether a rail one
/// block lower also counts; none for a curve or a missing shape.
pub open spec fn spec_next_rail_pos(pos: BlockPos, shape: Option<Seq<u8>>, forward: bool) -> Option<(BlockPos, RailAxis, bool)> {
    match shape {
        None => None,
        Some(shape) => match rail_step(shape, forward) {
            Some((dx, dy, dz, axis, below)) => Some((spec_offset(pos, dx, dy, dz), axis, below)),
            None => None,
        },
    }
}

/// The next rail position from `pos` along a rail with shape `shape`.
pub fn next_rail_pos(pos: BlockPos, shape: Option<&str>, forward: bool) -> (next: Option<(BlockPos, RailAxis, bool)>)
    ensures
        next == spec_next_rail_pos(pos, option_bytes(shape), forward),
{
    let shape = match shape {
        Some(shape) => shape.as_bytes(),
        None => {
            return None;
        },
    };
    match rail_step_of(shape, forward) {
        Some((dx, dy, dz, axis, below)) => Some((pos.offset(dx, dy, dz), axis, below)),
        None => None,
    }
}

} // verus!
