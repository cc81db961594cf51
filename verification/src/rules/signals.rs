//! Signals the rules track: blocks that watch entities, and the power
//! property values.

use vstd::prelude::*;

use crate::registry::BlockBehavior;
use crate::text::bytes;

verus! {

/// Whether a block with behaviour `behavior` reacts to entities touching it:
/// pressure plates, tripwire and detector rails.
pub open spec fn spec_tracks_entity_collisions(behavior: BlockBehavior) -> bool {
    match behavior {
        BlockBehavior::PressurePlate { .. } | BlockBehavior::Tripwire | BlockBehavior::DetectorRail => true,
        _ => false,
    }
}

/// Whether a block with behaviour `behavior` reacts to entities touching it.
pub fn tracks_entity_collisions(behavior: &BlockBehavior) -> (result: bool)
    ensures
        result == spec_tracks_entity_collisions(*behavior),
{
    match behavior {
        BlockBehavior::PressurePlate { .. } | BlockBehavior::Tripwire | BlockBehavior::DetectorRail => true,
        _ => false,
    }
}

/// The decimal text of a power level.
pub open spec fn spec_power_value(power: u8) -> Seq<u8> {
    if power == 0 {
        bytes("0")
    } else if power == 1 {
        bytes("1")
    } else if power == 2 {
        bytes("2")
    } else if power == 3 {
        bytes("3")
    } else if power == 4 {
        bytes("4")
    } else if power == 5 {
        bytes("5")
    } else if power == 6 {
        bytes("6")
    } else if power == 7 {
        bytes("7")
    } else if power == 8 {
        bytes("8")
    } else if power == 9 {
        bytes("9")
    } else if power == 10 {
        bytes("10")
    } else if power == 11 {
        bytes("11")
    } else if power == 12 {
        bytes("12")
    } else if power == 13 {
        bytes("13")
    } else if power == 14 {
        bytes("14")
    } else {
        bytes("15")
    }
}

/// The power property value of a level, capped at 15.
pub fn power_value(power: u8) -> (value: &'static str)
    ensures
        bytes(value) == spec_power_value(power),
{
    let values: [&'static str; 16] = [
        "0", "1", "2", "3", "4", "5", "6", "7", "8", "9", "10", "11", "12", "13", "14", "15",
    ];
    let index = if power > 15 {
        15usize
    } else {
        power as usize
    };
    values[index]
}

/// Digests of the interpreted rule caches, to tell two rule states apart.
#[derive(Clone, Copy, Debug, PartialEq, Eq, Structural)]
pub struct Java26RuleCacheFingerprint {
    pub comparator_outputs: u64,
    pub torch_toggles: u64,
    pub event_counts: u64,
    pub hopper_last_tick: u64,
    pub active_hopper: u64,
}

} // verus!
