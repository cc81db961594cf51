//! Pistons: the sticky blocks and the axis projection of positions.

use vstd::prelude::*;

use crate::position::{BlockPos, Direction};
use crate::text::{bytes, name_is};

verus! {

/// Whether a block named `name` is a sticky block: slime or honey.
pub open spec fn spec_is_sticky_block(name: Seq<u8>) -> bool {
    name == bytes("minecraft:slime_block") || name == bytes("minecraft:honey_block")
}

/// Whether a block named `name` is a sticky block: slime or honey.
pub fn is_sticky_block(name: &str) -> (result: bool)
    ensures
        result == spec_is_sticky_block(bytes(name)),
{
    name_is(name.as_bytes(), "minecraft:slime_block") || name_is(name.as_bytes(), "minecraft:honey_block")
}

/// Whether a block `left` pulls block `right` along: any block that is not
/// sticky is pulled, and slime and honey do not pull each other.
pub open spec fn spec_sticks_to(left: Seq<u8>, right: Seq<u8>) -> bool {
    (spec_is_sticky_block(right) && !((left == bytes("minecraft:slime_block") && right == bytes(
        "minecraft:honey_block",
    )) || (left == bytes("minecraft:honey_block") && right == bytes("minecraft:slime_block"))))
        || !spec_is_sticky_block(right)
}

/// Whether a block `left` pulls block `right` along.
pub fn sticks_to(left: &str, right: &str) -> (result: bool)
    ensures
        result == spec_sticks_to(bytes(left), bytes(right)),
{
    let sticky = is_sticky_block(right);
    let l = left.as_bytes();
    let r = right.as_bytes();
    (sticky && !((name_is(l, "minecraft:slime_block") && name_is(r, "minecraft:honey_block")) || (name_is(
        l,
        "minecraft:honey_block",
    ) && name_is(r, "minecraft:slime_block")))) || !sticky
}

/// The coordinate of a position along a direction: the dot product with
/// the direction's unit step, which picks one coordinate, negated for the
/// directions that point against their axis.
pub open spec fn spec_projection(pos: BlockPos, direction: Direction) -> int {
    match direction {
        Direction::Down => -pos.y,
        Direction::Up => pos.y as int,
        Direction::North => -pos.z,
        Direction::South => pos.z as int,
        Direction::West => -pos.x,
        Direction::East => pos.x as int,
    }
}

/// The coordinate of a position along a direction.
pub fn projection(pos: BlockPos, direction: Direction) -> (value: i64)
    ensures
        value == spec_projection(pos, direction),
{
    let px = pos.x as i64;
    let py = pos.y as i64;
    let pz = pos.z as i64;
    match direction {
        Direction::Down => -py,
        Direction::Up => py,
        Direction::North => -pz,
        Direction::South => pz,
        Direction::West => -px,
        Direction::East => px,
    }
}

} // verus!
