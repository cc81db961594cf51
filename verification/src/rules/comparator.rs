//! What a comparator reads: which blocks give an analog output, the chest
//! and inventory families, and the fixed outputs of golem poses and discs.

use vstd::prelude::*;

use crate::text::{
    bool_property, bytes, ends_with, flag_of, int_property, lemma_ascii_bytes, lemma_differ_at, lemma_suffixes_clash, name_ends, name_is, number_of, path, path_of, property,
    property_of,
};

verus! {

/// Whether a block path is one of the blocks with their own analog output.
pub open spec fn analog_block(path: Seq<u8>) -> bool {
    path == bytes("cauldron")
        || path == bytes("water_cauldron")
        || path == bytes("powder_snow_cauldron")
        || path == bytes("lava_cauldron")
        || path == bytes("composter")
        || path == bytes("cake")
        || path == bytes("bee_nest")
        || path == bytes("beehive")
        || path == bytes("end_portal_frame")
        || path == bytes("respawn_anchor")
        || path == bytes("chiseled_bookshelf")
        || path == bytes("command_block")
        || path == bytes("chain_command_block")
        || path == bytes("repeating_command_block")
        || path == bytes("crafter")
        || path == bytes("creaking_heart")
        || path == bytes("detector_rail")
        || path == bytes("jukebox")
        || path == bytes("lectern")
        || path == bytes("sculk_sensor")
        || path == bytes("calibrated_sculk_sensor")
        || path == bytes("decorated_pot")
}

fn is_analog_block(path: &[u8]) -> (result: bool)
    ensures
        result == analog_block(path@),
{
    name_is(path, "cauldron")
        || name_is(path, "water_cauldron")
        || name_is(path, "powder_snow_cauldron")
        || name_is(path, "lava_cauldron")
        || name_is(path, "composter")
        || name_is(path, "cake")
        || name_is(path, "bee_nest")
        || name_is(path, "beehive")
        || name_is(path, "end_portal_frame")
        || name_is(path, "respawn_anchor")
        || name_is(path, "chiseled_bookshelf")
        || name_is(path, "command_block")
        || name_is(path, "chain_command_block")
        || name_is(path, "repeating_command_block")
        || name_is(path, "crafter")
        || name_is(path, "creaking_heart")
        || name_is(path, "detector_rail")
        || name_is(path, "jukebox")
        || name_is(path, "lectern")
        || name_is(path, "sculk_sensor")
        || name_is(path, "calibrated_sculk_sensor")
        || name_is(path, "decorated_pot")
}

/// Whether a block path is one of the inventory blocks a comparator reads.
pub open spec fn inventory_block(path: Seq<u8>) -> bool {
    path == bytes("furnace")
        || path == bytes("blast_furnace")
        || path == bytes("smoker")
        || path == bytes("barrel")
        || path == bytes("brewing_stand")
        || path == bytes("dropper")
        || path == bytes("dispenser")
        || path == bytes("hopper")
        || path == bytes("shulker_box")
}

fn is_inventory_block(path: &[u8]) -> (result: bool)
    ensures
        result == inventory_block(path@),
{
    name_is(path, "furnace")
        || name_is(path, "blast_furnace")
        || name_is(path, "smoker")
        || name_is(path, "barrel")
        || name_is(path, "brewing_stand")
        || name_is(path, "dropper")
        || name_is(path, "dispenser")
        || name_is(path, "hopper")
        || name_is(path, "shulker_box")
}

/// Whether a block path names a shulker box or another inventory block
/// whose fill a comparator reads.
pub open spec fn spec_is_inventory_output_block(path: Seq<u8>) -> bool {
    ends_with(path, bytes("_shulker_box")) || inventory_block(path)
}

/// Whether a block path names a shulker box or another inventory block
/// whose fill a comparator reads.
pub fn is_inventory_output_block(path: &str) -> (result: bool)
    ensures
        result == spec_is_inventory_output_block(bytes(path)),
{
    let path = path.as_bytes();
    name_ends(path, "_shulker_box") || is_inventory_block(path)
}

/// Whether a block path names a chest: a chest, a trapped chest or any copper chest.
pub open spec fn spec_is_chest(path: Seq<u8>) -> bool {
    path == bytes("chest") || path == bytes("trapped_chest") || ends_with(path, bytes("copper_chest"))
}

/// Whether a block path names a chest: a chest, a trapped chest or any copper chest.
pub fn is_chest(path: &str) -> (result: bool)
    ensures
        result == spec_is_chest(bytes(path)),
{
    let path = path.as_bytes();
    name_is(path, "chest") || name_is(path, "trapped_chest") || name_ends(path, "copper_chest")
}

/// Whether two chests join into a double chest: the same block, or two
/// copper chests of any weathering.
pub open spec fn spec_chests_connect(path: Seq<u8>, partner: Seq<u8>) -> bool {
    path == partner || (ends_with(path, bytes("copper_chest")) && ends_with(partner, bytes("copper_chest")))
}

/// Whether two chests join into a double chest.
pub fn chests_connect(path: &str, partner: &str) -> (result: bool)
    ensures
        result == spec_chests_connect(bytes(path), bytes(partner)),
{
    crate::text::bytes_equal(path.as_bytes(), partner.as_bytes()) || (name_ends(path.as_bytes(), "copper_chest")
        && name_ends(partner.as_bytes(), "copper_chest"))
}

/// Whether a block named `name` gives a comparator an analog output: the
/// blocks with their own output, candle cakes, copper bulbs, copper golem
/// statues, shelves, chests and inventory blocks.
pub open spec fn spec_has_analog_output(name: Seq<u8>) -> bool {
    let p = path(name);
    analog_block(p) || p == bytes("candle_cake") || ends_with(p, bytes("_candle_cake")) || ends_with(
        p,
        bytes("_bulb"),
    ) || ends_with(p, bytes("copper_golem_statue")) || ends_with(p, bytes("_shelf")) || spec_is_chest(p)
        || spec_is_inventory_output_block(p)
}

/// Whether a block named `name` gives a comparator an analog output.
pub fn has_analog_output(name: &str) -> (result: bool)
    ensures
        result == spec_has_analog_output(bytes(name)),
{
    let p = path_of(name);
    is_analog_block(p) || name_is(p, "candle_cake") || name_ends(p, "_candle_cake") || name_ends(p, "_bulb")
        || name_ends(p, "copper_golem_statue") || name_ends(p, "_shelf") || (name_is(p, "chest") || name_is(
        p,
        "trapped_chest",
    ) || name_ends(p, "copper_chest")) || (name_ends(p, "_shulker_box") || is_inventory_block(p))
}

/// The output of a copper golem statue in a pose.
pub open spec fn spec_copper_golem_pose_output(pose: Seq<u8>) -> i32 {
    if pose == bytes("standing") {
        1
    } else if pose == bytes("sitting") {
        2
    } else if pose == bytes("running") {
        3
    } else if pose == bytes("star") {
        4
    } else {
        0
    }
}

/// The output of a copper golem statue in a pose: standing 1, sitting 2,
/// running 3, star 4, else 0.
pub fn copper_golem_pose_output(pose: &str) -> (output: i32)
    ensures
        output == spec_copper_golem_pose_output(bytes(pose)),
{
    let pose = pose.as_bytes();
    if name_is(pose, "standing") {
        1
    } else if name_is(pose, "sitting") {
        2
    } else if name_is(pose, "running") {
        3
    } else if name_is(pose, "star") {
        4
    } else {
        0
    }
}

/// An output clamped to a signal level.
pub open spec fn spec_clamp_signal(output: i64) -> u8 {
    if output < 0 {
        0
    } else if output > 15 {
        15
    } else {
        output as u8
    }
}

/// An output clamped to a signal level, 0 to 15.
pub fn clamp_signal(output: i64) -> (signal: u8)
    ensures
        signal == spec_clamp_signal(output),
{
    if output < 0 {
        0
    } else if output > 15 {
        15
    } else {
        output as u8
    }
}

/// The output of a jukebox playing a song.
pub open spec fn spec_jukebox_song_output(song: Seq<u8>) -> i32 {
    if song == bytes("13") {
        1
    } else if song == bytes("cat") {
        2
    } else if song == bytes("blocks") {
        3
    } else if song == bytes("chirp") {
        4
    } else if song == bytes("far") {
        5
    } else if song == bytes("mall") {
        6
    } else if song == bytes("mellohi") {
        7
    } else if song == bytes("stal") {
        8
    } else if song == bytes("strad") {
        9
    } else if song == bytes("lava_chicken") {
        9
    } else if song == bytes("ward") {
        10
    } else if song == bytes("tears") {
        10
    } else if song == bytes("11") {
        11
    } else if song == bytes("creator_music_box") {
        11
    } else if song == bytes("wait") {
        12
    } else if song == bytes("creator") {
        12
    } else if song == bytes("pigstep") {
        13
    } else if song == bytes("precipice") {
        13
    } else if song == bytes("otherside") {
        14
    } else if song == bytes("relic") {
        14
    } else if song == bytes("5") {
        15
    } else {
        0
    }
}

/// The output of a jukebox playing a song, by the song's place in the disc
/// order; 0 for an unknown song.
pub fn jukebox_song_output(song: &str) -> (output: i32)
    ensures
        output == spec_jukebox_song_output(bytes(song)),
{
    song_output(song.as_bytes())
}

/// The output of a jukebox playing the song whose name has bytes `song`.
pub fn song_output(song: &[u8]) -> (output: i32)
    ensures
        output == spec_jukebox_song_output(song@),
{
    if name_is(song, "13") {
        1
    } else if name_is(song, "cat") {
        2
    } else if name_is(song, "blocks") {
        3
    } else if name_is(song, "chirp") {
        4
    } else if name_is(song, "far") {
        5
    } else if name_is(song, "mall") {
        6
    } else if name_is(song, "mellohi") {
        7
    } else if name_is(song, "stal") {
        8
    } else if name_is(song, "strad") {
        9
    } else if name_is(song, "lava_chicken") {
        9
    } else if name_is(song, "ward") {
        10
    } else if name_is(song, "tears") {
        10
    } else if name_is(song, "11") {
        11
    } else if name_is(song, "creator_music_box") {
        11
    } else if name_is(song, "wait") {
        12
    } else if name_is(song, "creator") {
        12
    } else if name_is(song, "pigstep") {
        13
    } else if name_is(song, "precipice") {
        13
    } else if name_is(song, "otherside") {
        14
    } else if name_is(song, "relic") {
        14
    } else if name_is(song, "5") {
        15
    } else {
        0
    }
}

/// What the world holds for a comparator reading a block: the block
/// entity's fields by name, and the outputs that need more than the block's
/// own state (its inventory, entities, items or neighbours).
#[derive(Clone, Copy, Debug, PartialEq, Eq, Structural)]
pub struct AnalogReads {
    /// The block entity's `comparator_output`.
    pub comparator_output: Option<i64>,
    /// The block entity's `last_interacted_slot`, else `LastInteractedSlot`.
    pub last_interacted_slot: Option<i64>,
    /// The block entity's `SuccessCount`, else `success_count`.
    pub success_count: Option<i64>,
    /// The block entity's `output_signal`, else `OutputSignal`.
    pub output_signal: Option<i64>,
    /// The block entity's `comparator_output`, else `ComparatorOutput`.
    pub recorded_output: Option<i64>,
    /// The block entity's `last_vibration_frequency`, else `LastVibrationFrequency`.
    pub last_vibration_frequency: Option<i64>,
    /// What a crafter's grid gives.
    pub crafter: i32,
    /// What a detector rail's carts give.
    pub detector_rail: i32,
    /// What a jukebox's disc gives.
    pub jukebox: i32,
    /// What a lectern's book gives.
    pub lectern: i32,
    /// What a shelf's items give toward the comparator.
    pub shelf: i32,
    /// What a decorated pot's item gives.
    pub decorated_pot: i32,
    /// What a chest, single or double, gives.
    pub chest: i32,
    /// The fill signal of an inventory block, if it has an inventory.
    pub container: Option<u8>,
}

/// A block entity value, or `default` when there is none.
pub open spec fn or_default(value: Option<i64>, default: int) -> int {
    match value {
        Some(v) => v as int,
        None => default,
    }
}

/// A parsed property, or `default` when there is none.
pub open spec fn number_or(value: Option<i32>, default: int) -> int {
    match value {
        Some(v) => v as int,
        None => default,
    }
}

/// `value` clamped into `low..=high`.
pub open spec fn clamp_to(value: int, low: int, high: int) -> int {
    if value < low {
        low
    } else if value > high {
        high
    } else {
        value
    }
}

/// Whether a value fits an `i32`.
pub open spec fn fits_i32(value: int) -> bool {
    i32::MIN <= value <= i32::MAX
}

/// The output that the state of a block at path `p` alone gives, for the
/// blocks whose state decides it.
pub open spec fn state_output(p: Seq<u8>, properties: Seq<(&str, &str)>) -> Option<int> {
    if p == bytes("water_cauldron") || p == bytes("powder_snow_cauldron") || p == bytes("composter") {
        Some(number_or(number_of(properties, bytes("level")), 0))
    } else if p == bytes("lava_cauldron") {
        Some(3)
    } else if p == bytes("cauldron") {
        Some(0)
    } else if p == bytes("cake") {
        Some((7 - number_or(number_of(properties, bytes("bites")), 0)) * 2)
    } else if p == bytes("candle_cake") || ends_with(p, bytes("_candle_cake")) {
        Some(14)
    } else if p == bytes("bee_nest") || p == bytes("beehive") {
        Some(number_or(number_of(properties, bytes("honey_level")), 0))
    } else {
        lit_output(p, properties)
    }
}

/// A quarter of `value`, rounded toward zero as integer division does.
pub open spec fn truncated_quarter(value: int) -> int {
    if value >= 0 {
        value / 4
    } else {
        -((-value) / 4)
    }
}

/// The output of the blocks that light or charge: end portal frames with an
/// eye, respawn anchors by charge, lit bulbs and copper golem statues by pose.
pub open spec fn lit_output(p: Seq<u8>, properties: Seq<(&str, &str)>) -> Option<int> {
    if p == bytes("end_portal_frame") {
        Some(if flag_of(properties, bytes("eye")) { 15int } else { 0int })
    } else if p == bytes("respawn_anchor") {
        Some(truncated_quarter(number_or(number_of(properties, bytes("charges")), 0) * 15))
    } else if ends_with(p, bytes("_bulb")) {
        Some(if flag_of(properties, bytes("lit")) { 15int } else { 0int })
    } else if ends_with(p, bytes("copper_golem_statue")) {
        Some(
            spec_copper_golem_pose_output(
                match property_of(properties, bytes("copper_golem_pose")) {
                    Some(pose) => pose,
                    None => bytes("standing"),
                },
            ) as int,
        )
    } else {
        None
    }
}

/// The output of the blocks whose block entity records it.
pub open spec fn entity_output(p: Seq<u8>, properties: Seq<(&str, &str)>, reads: AnalogReads) -> Option<int> {
    if p == bytes("chiseled_bookshelf") {
        Some(clamp_to(or_default(reads.last_interacted_slot, -1), -1, 14) + 1)
    } else if p == bytes("command_block") || p == bytes("chain_command_block") || p == bytes("repeating_command_block") {
        Some(clamp_to(or_default(reads.success_count, 0), 0, 15))
    } else if p == bytes("crafter") {
        Some(reads.crafter as int)
    } else if p == bytes("creaking_heart") {
        Some(
            if property_of(properties, bytes("creaking_heart_state")) == Some(bytes("uprooted")) {
                0
            } else {
                clamp_to(or_default(reads.output_signal, 0), 0, 15)
            },
        )
    } else if p == bytes("detector_rail") {
        Some(reads.detector_rail as int)
    } else if p == bytes("jukebox") {
        Some(
            match reads.recorded_output {
                Some(v) => clamp_to(v as int, 0, 15),
                None => reads.jukebox as int,
            },
        )
    } else if p == bytes("lectern") {
        Some(
            match reads.comparator_output {
                Some(v) => clamp_to(v as int, 0, 15),
                None => reads.lectern as int,
            },
        )
    } else {
        held_output(p, properties, reads)
    }
}

/// The output of sculk sensors, shelves, pots, chests and inventory blocks.
pub open spec fn held_output(p: Seq<u8>, properties: Seq<(&str, &str)>, reads: AnalogReads) -> Option<int> {
    if p == bytes("sculk_sensor") || p == bytes("calibrated_sculk_sensor") {
        Some(
            if property_of(properties, bytes("sculk_sensor_phase")) == Some(bytes("active")) {
                clamp_to(or_default(reads.last_vibration_frequency, 0), 0, 15)
            } else {
                0
            },
        )
    } else if ends_with(p, bytes("_shelf")) && p != bytes("chiseled_bookshelf") {
        Some(reads.shelf as int)
    } else if p == bytes("decorated_pot") {
        Some(reads.decorated_pot as int)
    } else if spec_is_chest(p) {
        Some(reads.chest as int)
    } else if spec_is_inventory_output_block(p) {
        Some(
            match reads.container {
                Some(v) => v as int,
                None => 0,
            },
        )
    } else {
        None
    }
}

/// The output a block at path `p` with properties `properties` gives, before
/// clamping, when its block entity records no output of its own; nothing for
/// a block without an analog output.
pub open spec fn block_output(p: Seq<u8>, properties: Seq<(&str, &str)>, reads: AnalogReads) -> Option<int> {
    match state_output(p, properties) {
        Some(output) => Some(output),
        None => entity_output(p, properties, reads),
    }
}

/// Whether the state arithmetic of a block at path `p` stays inside `i32`.
pub open spec fn output_arithmetic_fits(p: Seq<u8>, properties: Seq<(&str, &str)>) -> bool {
    &&& p == bytes("cake") ==> fits_i32(7 - number_or(number_of(properties, bytes("bites")), 0))
        && fits_i32((7 - number_or(number_of(properties, bytes("bites")), 0)) * 2)
    &&& p == bytes("respawn_anchor") ==> fits_i32(number_or(number_of(properties, bytes("charges")), 0) * 15)
}

/// What a comparator reads from a block named `name`: the output its block
/// entity records, else what its state and `reads` give, clamped to a signal
/// level; nothing for a block without an analog output.
pub open spec fn spec_analog_output(name: Seq<u8>, properties: Seq<(&str, &str)>, reads: AnalogReads) -> Option<u8> {
    match reads.comparator_output {
        Some(output) => Some(spec_clamp_signal(output)),
        None => match block_output(path(name), properties, reads) {
            Some(output) => Some(level_of(output)),
            None => None,
        },
    }
}

/// An output clamped to a signal level.
pub open spec fn level_of(output: int) -> u8 {
    if output < 0 {
        0
    } else if output > 15 {
        15
    } else {
        output as u8
    }
}

fn clamp_i64(value: i64, low: i64, high: i64) -> (result: i64)
    requires
        low <= high,
    ensures
        result == clamp_to(value as int, low as int, high as int),
{
    if value < low {
        low
    } else if value > high {
        high
    } else {
        value
    }
}

fn value_or(value: Option<i64>, default: i64) -> (result: i64)
    ensures
        result == or_default(value, default as int),
{
    match value {
        Some(v) => v,
        None => default,
    }
}

fn number_or_zero(value: Option<i32>) -> (result: i32)
    ensures
        result == number_or(value, 0),
{
    match value {
        Some(v) => v,
        None => 0,
    }
}

fn state_output_of(p: &[u8], properties: &[(&str, &str)]) -> (output: Option<i64>)
    requires
        output_arithmetic_fits(p@, properties@),
    ensures
        match output {
            Some(v) => state_output(p@, properties@) == Some(v as int),
            None => state_output(p@, properties@) is None,
        },
{
    if name_is(p, "water_cauldron") || name_is(p, "powder_snow_cauldron") || name_is(p, "composter") {
        Some(number_or_zero(int_property(properties, "level")) as i64)
    } else if name_is(p, "lava_cauldron") {
        Some(3)
    } else if name_is(p, "cauldron") {
        Some(0)
    } else if name_is(p, "cake") {
        let bites = number_or_zero(int_property(properties, "bites"));
        Some(((7 - bites) * 2) as i64)
    } else if name_is(p, "candle_cake") || name_ends(p, "_candle_cake") {
        Some(14)
    } else if name_is(p, "bee_nest") || name_is(p, "beehive") {
        Some(number_or_zero(int_property(properties, "honey_level")) as i64)
    } else {
        lit_output_of(p, properties)
    }
}

fn lit_output_of(p: &[u8], properties: &[(&str, &str)]) -> (output: Option<i64>)
    requires
        output_arithmetic_fits(p@, properties@),
    ensures
        match output {
            Some(v) => lit_output(p@, properties@) == Some(v as int),
            None => lit_output(p@, properties@) is None,
        },
{
    if name_is(p, "end_portal_frame") {
        Some(if bool_property(properties, "eye") { 15 } else { 0 })
    } else if name_is(p, "respawn_anchor") {
        let charges = number_or_zero(int_property(properties, "charges"));
        Some((charges * 15 / 4) as i64)
    } else if name_ends(p, "_bulb") {
        Some(if bool_property(properties, "lit") { 15 } else { 0 })
    } else if name_ends(p, "copper_golem_statue") {
        let pose = match property(properties, "copper_golem_pose") {
            Some(pose) => pose,
            None => "standing",
        };
        proof {
            reveal_strlit("standing");
        }
        Some(copper_golem_pose_output(pose) as i64)
    } else {
        None
    }
}

fn entity_output_of(p: &[u8], properties: &[(&str, &str)], reads: &AnalogReads) -> (output: Option<i64>)
    ensures
        match output {
            Some(v) => entity_output(p@, properties@, *reads) == Some(v as int),
            None => entity_output(p@, properties@, *reads) is None,
        },
{
    if name_is(p, "chiseled_bookshelf") {
        Some(clamp_i64(value_or(reads.last_interacted_slot, -1), -1, 14) + 1)
    } else if name_is(p, "command_block") || name_is(p, "chain_command_block") || name_is(p, "repeating_command_block") {
        Some(clamp_i64(value_or(reads.success_count, 0), 0, 15))
    } else if name_is(p, "crafter") {
        Some(reads.crafter as i64)
    } else if name_is(p, "creaking_heart") {
        let uprooted = match property(properties, "creaking_heart_state") {
            Some(state) => name_is(state.as_bytes(), "uprooted"),
            None => false,
        };
        Some(if uprooted { 0 } else { clamp_i64(value_or(reads.output_signal, 0), 0, 15) })
    } else if name_is(p, "detector_rail") {
        Some(reads.detector_rail as i64)
    } else if name_is(p, "jukebox") {
        Some(
            match reads.recorded_output {
                Some(v) => clamp_i64(v, 0, 15),
                None => reads.jukebox as i64,
            },
        )
    } else if name_is(p, "lectern") {
        Some(
            match reads.comparator_output {
                Some(v) => clamp_i64(v, 0, 15),
                None => reads.lectern as i64,
            },
        )
    } else {
        held_output_of(p, properties, reads)
    }
}

fn held_output_of(p: &[u8], properties: &[(&str, &str)], reads: &AnalogReads) -> (output: Option<i64>)
    ensures
        match output {
            Some(v) => held_output(p@, properties@, *reads) == Some(v as int),
            None => held_output(p@, properties@, *reads) is None,
        },
{
    if name_is(p, "sculk_sensor") || name_is(p, "calibrated_sculk_sensor") {
        let active = match property(properties, "sculk_sensor_phase") {
            Some(phase) => name_is(phase.as_bytes(), "active"),
            None => false,
        };
        Some(if active { clamp_i64(value_or(reads.last_vibration_frequency, 0), 0, 15) } else { 0 })
    } else if name_ends(p, "_shelf") && !name_is(p, "chiseled_bookshelf") {
        Some(reads.shelf as i64)
    } else if name_is(p, "decorated_pot") {
        Some(reads.decorated_pot as i64)
    } else if name_is(p, "chest") || name_is(p, "trapped_chest") || name_ends(p, "copper_chest") {
        Some(reads.chest as i64)
    } else if name_ends(p, "_shulker_box") || is_inventory_block(p) {
        Some(
            match reads.container {
                Some(v) => v as i64,
                None => 0,
            },
        )
    } else {
        None
    }
}

/// The output of the block at path `p`, before clamping.
fn block_output_of(p: &[u8], properties: &[(&str, &str)], reads: &AnalogReads) -> (output: Option<i64>)
    requires
        output_arithmetic_fits(p@, properties@),
    ensures
        match output {
            Some(v) => block_output(p@, properties@, *reads) == Some(v as int),
            None => block_output(p@, properties@, *reads) is None,
        },
{
    match state_output_of(p, properties) {
        Some(output) => Some(output),
        None => entity_output_of(p, properties, reads),
    }
}

/// What a comparator reads from a block named `name` with properties
/// `properties`, given what the world holds for it.
pub fn analog_output(name: &str, properties: &[(&str, &str)], reads: &AnalogReads) -> (output: Option<u8>)
    requires
        output_arithmetic_fits(path(bytes(name)), properties@),
    ensures
        output == spec_analog_output(bytes(name), properties@, *reads),
{
    if let Some(recorded) = reads.comparator_output {
        return Some(clamp_signal(recorded));
    }
    let p = path_of(name);
    match block_output_of(p, properties, reads) {
        Some(output) => Some(clamp_signal(output)),
        None => None,
    }
}


/// The path `end_portal_frame` matches none of the paths and suffixes that
/// the state outputs test before it.
proof fn lemma_frame_path_reached()
    ensures
        ({
            let p = bytes("end_portal_frame");
            &&& p != bytes("water_cauldron")
            &&& p != bytes("powder_snow_cauldron")
            &&& p != bytes("composter")
            &&& p != bytes("lava_cauldron")
            &&& p != bytes("cauldron")
            &&& p != bytes("cake")
            &&& p != bytes("candle_cake")
            &&& !ends_with(p, bytes("_candle_cake"))
            &&& p != bytes("bee_nest")
            &&& p != bytes("beehive")
        }),
{
    reveal_strlit("end_portal_frame");
    reveal_strlit("water_cauldron");
    reveal_strlit("powder_snow_cauldron");
    reveal_strlit("composter");
    reveal_strlit("lava_cauldron");
    reveal_strlit("cauldron");
    reveal_strlit("cake");
    reveal_strlit("candle_cake");
    reveal_strlit("_candle_cake");
    reveal_strlit("bee_nest");
    reveal_strlit("beehive");
    lemma_ascii_bytes("end_portal_frame");
    lemma_ascii_bytes("water_cauldron");
    lemma_ascii_bytes("powder_snow_cauldron");
    lemma_ascii_bytes("composter");
    lemma_ascii_bytes("lava_cauldron");
    lemma_ascii_bytes("cauldron");
    lemma_ascii_bytes("cake");
    lemma_ascii_bytes("candle_cake");
    lemma_ascii_bytes("_candle_cake");
    lemma_ascii_bytes("bee_nest");
    lemma_ascii_bytes("beehive");
    let p = bytes("end_portal_frame");
    assert(p.subrange(4, 16)[0] != bytes("_candle_cake")[0]);
}

/// A comparator reads an end portal frame as full when the frame holds an
/// eye and as empty when it does not, whatever its other properties and
/// block entity reads, unless the block entity records an output of its own.
pub proof fn law_end_portal_frame_output(name: Seq<u8>, properties: Seq<(&str, &str)>, reads: AnalogReads)
    requires
        path(name) == bytes("end_portal_frame"),
        reads.comparator_output is None,
    ensures
        property_of(properties, bytes("eye")) == Some(bytes("true")) ==> spec_analog_output(name, properties, reads) == Some(
            15u8,
        ),
        property_of(properties, bytes("eye")) != Some(bytes("true")) ==> spec_analog_output(name, properties, reads) == Some(
            0u8,
        ),
{
    lemma_frame_path_reached();
}


/// The lengths of the paths and suffixes that the state outputs test, and
/// the bytes at which those that meet part.
proof fn lemma_state_literals()
    ensures
        bytes("cauldron").len() == 8,
        bytes("water_cauldron").len() == 14,
        bytes("powder_snow_cauldron").len() == 20,
        bytes("composter").len() == 9,
        bytes("lava_cauldron").len() == 13,
        bytes("candle_cake").len() == 11,
        bytes("cake").len() == 4,
        bytes("_candle_cake").len() == 12,
        bytes("_bulb").len() == 5,
        bytes("bee_nest").len() == 8,
        bytes("beehive").len() == 7,
        bytes("end_portal_frame").len() == 16,
        bytes("respawn_anchor").len() == 14,
        bytes("water_cauldron")[2] == 't' as u8,
        bytes("_candle_cake")[0] == '_' as u8,
        bytes("powder_snow_cauldron")[8] == 'n' as u8,
        bytes("lava_cauldron")[1] == 'a' as u8,
        bytes("water_cauldron")[9] == 'l' as u8,
        bytes("_bulb")[0] == '_' as u8,
        bytes("powder_snow_cauldron")[15] == 'l' as u8,
        bytes("composter")[4] == 'o' as u8,
        bytes("lava_cauldron")[8] == 'l' as u8,
        bytes("cauldron")[3] == 'l' as u8,
        bytes("candle_cake")[7] == 'c' as u8,
        bytes("_bulb")[1] == 'b' as u8,
        bytes("_bulb")[4] == 'b' as u8,
        bytes("_candle_cake")[11] == 'e' as u8,
        bytes("bee_nest")[4] == 'n' as u8,
        bytes("beehive")[2] == 'e' as u8,
        bytes("end_portal_frame")[11] == 'f' as u8,
        bytes("respawn_anchor")[9] == 'n' as u8,
{
    reveal_strlit("cauldron");
    lemma_ascii_bytes("cauldron");
    reveal_strlit("water_cauldron");
    lemma_ascii_bytes("water_cauldron");
    reveal_strlit("powder_snow_cauldron");
    lemma_ascii_bytes("powder_snow_cauldron");
    reveal_strlit("composter");
    lemma_ascii_bytes("composter");
    reveal_strlit("lava_cauldron");
    lemma_ascii_bytes("lava_cauldron");
    reveal_strlit("candle_cake");
    lemma_ascii_bytes("candle_cake");
    reveal_strlit("cake");
    lemma_ascii_bytes("cake");
    reveal_strlit("_candle_cake");
    lemma_ascii_bytes("_candle_cake");
    reveal_strlit("_bulb");
    lemma_ascii_bytes("_bulb");
    reveal_strlit("bee_nest");
    lemma_ascii_bytes("bee_nest");
    reveal_strlit("beehive");
    lemma_ascii_bytes("beehive");
    reveal_strlit("end_portal_frame");
    lemma_ascii_bytes("end_portal_frame");
    reveal_strlit("respawn_anchor");
    lemma_ascii_bytes("respawn_anchor");
}

/// A comparator reads the blocks of fixed output as fixed levels, whatever
/// their properties and block entity reads, unless the block entity records
/// an output of its own: an empty cauldron 0, a lava cauldron 3 and a cake
/// with candles 14.
pub proof fn law_fixed_state_outputs(name: Seq<u8>, properties: Seq<(&str, &str)>, reads: AnalogReads)
    requires
        reads.comparator_output is None,
    ensures
        path(name) == bytes("cauldron") ==> spec_analog_output(name, properties, reads) == Some(0u8),
        path(name) == bytes("lava_cauldron") ==> spec_analog_output(name, properties, reads) == Some(3u8),
        path(name) == bytes("candle_cake") || ends_with(path(name), bytes("_candle_cake")) ==> spec_analog_output(
            name,
            properties,
            reads,
        ) == Some(14u8),
{
    lemma_state_literals();
    let p = path(name);
    if ends_with(p, bytes("_candle_cake")) {
        lemma_differ_at(bytes("water_cauldron").subrange(2, 14), bytes("_candle_cake"), 0);
        lemma_differ_at(bytes("powder_snow_cauldron").subrange(8, 20), bytes("_candle_cake"), 0);
        lemma_differ_at(bytes("lava_cauldron").subrange(1, 13), bytes("_candle_cake"), 0);
    }
}

/// A comparator reads a copper bulb as full when it is lit and as empty
/// when it is not, whatever its other properties and block entity reads,
/// unless the block entity records an output of its own.
pub proof fn law_bulb_output(name: Seq<u8>, properties: Seq<(&str, &str)>, reads: AnalogReads)
    requires
        ends_with(path(name), bytes("_bulb")),
        reads.comparator_output is None,
    ensures
        property_of(properties, bytes("lit")) == Some(bytes("true")) ==> spec_analog_output(name, properties, reads) == Some(
            15u8,
        ),
        property_of(properties, bytes("lit")) != Some(bytes("true")) ==> spec_analog_output(name, properties, reads) == Some(
            0u8,
        ),
{
    lemma_state_literals();
    let p = path(name);
    lemma_differ_at(bytes("water_cauldron").subrange(9, 14), bytes("_bulb"), 0);
    lemma_differ_at(bytes("powder_snow_cauldron").subrange(15, 20), bytes("_bulb"), 0);
    lemma_differ_at(bytes("composter").subrange(4, 9), bytes("_bulb"), 0);
    lemma_differ_at(bytes("lava_cauldron").subrange(8, 13), bytes("_bulb"), 0);
    lemma_differ_at(bytes("cauldron").subrange(3, 8), bytes("_bulb"), 0);
    lemma_differ_at(bytes("candle_cake").subrange(6, 11), bytes("_bulb"), 1);
    lemma_suffixes_clash(p, bytes("_bulb"), bytes("_candle_cake"), 0);
    lemma_differ_at(bytes("bee_nest").subrange(3, 8), bytes("_bulb"), 1);
    lemma_differ_at(bytes("beehive").subrange(2, 7), bytes("_bulb"), 0);
    lemma_differ_at(bytes("end_portal_frame").subrange(11, 16), bytes("_bulb"), 0);
    lemma_differ_at(bytes("respawn_anchor").subrange(9, 14), bytes("_bulb"), 0);
}

} // verus!
