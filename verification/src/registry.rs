//! The block behaviour registry: behaviours, piston push reactions,
//! support faces and the classification of block names.

use vstd::prelude::*;

use crate::position::Direction;
use crate::text::{bytes, ends_with, lemma_ascii_bytes, lemma_differ_at, lemma_suffixes_clash, name_ends, name_is, path, path_of, property, property_of};

verus! {

/// How a block reacts to being pushed by a piston.
#[derive(Clone, Copy, Debug, PartialEq, Eq, Structural)]
pub enum PushReaction {
    Normal,
    Block,
    Destroy,
    PushOnly,
}

/// The kinds of face support a block can offer.
#[derive(Clone, Copy, Debug, PartialEq, Eq, Structural)]
pub enum SupportType {
    Full,
    Center,
    Rigid,
}

/// The faces, one bit per direction, that give each kind of support.
#[derive(Clone, Copy, Debug, PartialEq, Eq, Structural)]
pub struct SupportFaces {
    full: u8,
    center: u8,
    rigid: u8,
}

/// The bit of a support mask that stands for a face: west, east, down, up,
/// north, south from the lowest bit up.
pub open spec fn face_bit(direction: Direction) -> u8 {
    match direction {
        Direction::West => 0,
        Direction::East => 1,
        Direction::Down => 2,
        Direction::Up => 3,
        Direction::North => 4,
        Direction::South => 5,
    }
}

/// The bit of a support mask that stands for a face.
pub fn face_index(direction: Direction) -> (index: u8)
    ensures
        index == face_bit(direction),
        index < 6,
{
    match direction {
        Direction::West => 0,
        Direction::East => 1,
        Direction::Down => 2,
        Direction::Up => 3,
        Direction::North => 4,
        Direction::South => 5,
    }
}

/// The mask with only the bit of a face set.
pub fn direction_bit(direction: Direction) -> (bit: u8)
    ensures
        bit == 1u8 << face_bit(direction),
{
    1u8 << face_index(direction)
}

impl SupportFaces {
    /// The mask of faces that give support of kind `support_type`.
    pub closed spec fn faces(self, support_type: SupportType) -> u8 {
        match support_type {
            SupportType::Full => self.full,
            SupportType::Center => self.center,
            SupportType::Rigid => self.rigid,
        }
    }

    /// Support faces from one mask per kind of support.
    pub fn from_masks(full: u8, center: u8, rigid: u8) -> (faces: SupportFaces)
        ensures
            faces.faces(SupportType::Full) == full,
            faces.faces(SupportType::Center) == center,
            faces.faces(SupportType::Rigid) == rigid,
    {
        SupportFaces { full, center, rigid }
    }

    /// The mask of faces that give support of kind `support_type`.
    pub fn mask(self, support_type: SupportType) -> (mask: u8)
        ensures
            mask == self.faces(support_type),
    {
        match support_type {
            SupportType::Full => self.full,
            SupportType::Center => self.center,
            SupportType::Rigid => self.rigid,
        }
    }

    /// Whether the face toward `direction` gives support of kind `support_type`.
    pub fn supports(self, direction: Direction, support_type: SupportType) -> (result: bool)
        ensures
            result == ((self.faces(support_type) >> face_bit(direction)) & 1u8 == 1u8),
    {
        let mask = self.mask(support_type);
        let shift = face_index(direction);
        let bit = direction_bit(direction);
        assert((mask & (1u8 << shift) != 0u8) == ((mask >> shift) & 1u8 == 1u8)) by (bit_vector)
            requires
                shift < 8,
        ;
        mask & bit != 0
    }
}

/// The redstone behaviour of a block.
#[derive(Clone, Copy, Debug, PartialEq, Eq, Structural)]
pub enum BlockBehavior {
    Air,
    Static,
    Wire,
    Lever,
    Button { wooden: bool },
    RedstoneBlock,
    Torch { wall: bool },
    Repeater,
    Comparator,
    Observer,
    Piston { sticky: bool },
    Lamp,
    CopperBulb,
    PoweredConsumer,
    Door,
    PoweredRail,
    NoteBlock,
    Bell,
    Target,
    PressurePlate { max_weight: Option<u32>, detects_items: bool },
    Tripwire,
    TripwireHook,
    DetectorRail,
    DaylightDetector,
    Lectern,
    TrappedChest,
    Hopper,
    Dropper,
    Dispenser,
    Crafter,
    Tnt,
    UnsupportedActive,
}

/// Whether a block path names a block that pistons can never move.
pub open spec fn immovable(path: Seq<u8>) -> bool {
    path == bytes("bedrock")
        || path == bytes("obsidian")
        || path == bytes("crying_obsidian")
        || path == bytes("respawn_anchor")
        || path == bytes("reinforced_deepslate")
        || path == bytes("end_portal_frame")
        || path == bytes("moving_piston")
        || path == bytes("piston_head")
        || path == bytes("barrier")
        || path == bytes("light")
        || path == bytes("nether_portal")
        || path == bytes("end_portal")
        || path == bytes("end_gateway")
        || path == bytes("anvil")
        || path == bytes("chipped_anvil")
        || path == bytes("damaged_anvil")
        || path == bytes("grindstone")
        || path == bytes("lodestone")
}

/// Whether a block path names a block that a piston breaks, apart from the
/// families recognised by their suffix.
pub open spec fn fragile(path: Seq<u8>) -> bool {
    path == bytes("lever")
        || path == bytes("repeater")
        || path == bytes("comparator")
        || path == bytes("tripwire")
        || path == bytes("tripwire_hook")
        || path == bytes("structure_void")
        || path == bytes("decorated_pot")
}

/// How a block with path `path` reacts to a piston: an extended piston and
/// the immovable blocks block it, glazed terracotta can only be pushed,
/// torches, wire, buttons, pressure plates, doors (not trapdoors) and the
/// fragile blocks break, and everything else moves.
pub open spec fn spec_piston_push_reaction(path: Seq<u8>, extended_piston: bool) -> PushReaction {
    if extended_piston || immovable(path) {
        PushReaction::Block
    } else if ends_with(path, bytes("_glazed_terracotta")) {
        PushReaction::PushOnly
    } else if ends_with(path, bytes("_torch")) || path == bytes("redstone_wire") || ends_with(
        path,
        bytes("_button"),
    ) || ends_with(path, bytes("_pressure_plate")) || (ends_with(path, bytes("_door")) && !ends_with(
        path,
        bytes("_trapdoor"),
    )) || fragile(path) {
        PushReaction::Destroy
    } else {
        PushReaction::Normal
    }
}

fn is_immovable(path: &[u8]) -> (result: bool)
    ensures
        result == immovable(path@),
{
    name_is(path, "bedrock")
        || name_is(path, "obsidian")
        || name_is(path, "crying_obsidian")
        || name_is(path, "respawn_anchor")
        || name_is(path, "reinforced_deepslate")
        || name_is(path, "end_portal_frame")
        || name_is(path, "moving_piston")
        || name_is(path, "piston_head")
        || name_is(path, "barrier")
        || name_is(path, "light")
        || name_is(path, "nether_portal")
        || name_is(path, "end_portal")
        || name_is(path, "end_gateway")
        || name_is(path, "anvil")
        || name_is(path, "chipped_anvil")
        || name_is(path, "damaged_anvil")
        || name_is(path, "grindstone")
        || name_is(path, "lodestone")
}

fn is_fragile(path: &[u8]) -> (result: bool)
    ensures
        result == fragile(path@),
{
    name_is(path, "lever")
        || name_is(path, "repeater")
        || name_is(path, "comparator")
        || name_is(path, "tripwire")
        || name_is(path, "tripwire_hook")
        || name_is(path, "structure_void")
        || name_is(path, "decorated_pot")
}

fn push_reaction_of(path: &[u8], extended_piston: bool) -> (reaction: PushReaction)
    ensures
        reaction == spec_piston_push_reaction(path@, extended_piston),
{
    if extended_piston || is_immovable(path) {
        PushReaction::Block
    } else if name_ends(path, "_glazed_terracotta") {
        PushReaction::PushOnly
    } else if name_ends(path, "_torch") || name_is(path, "redstone_wire") || name_ends(path, "_button")
        || name_ends(path, "_pressure_plate") || (name_ends(path, "_door") && !name_ends(
        path,
        "_trapdoor",
    )) || is_fragile(path) {
        PushReaction::Destroy
    } else {
        PushReaction::Normal
    }
}

/// How a block with path `path` reacts to a piston; see `spec_piston_push_reaction`.
pub fn piston_push_reaction(path: &str, extended_piston: bool) -> (reaction: PushReaction)
    ensures
        reaction == spec_piston_push_reaction(bytes(path), extended_piston),
{
    push_reaction_of(path.as_bytes(), extended_piston)
}

/// The redstone behaviour of a block with path `path`.
pub open spec fn spec_behavior_of(path: Seq<u8>) -> BlockBehavior {
    if path == bytes("air") || path == bytes("cave_air") || path == bytes("void_air") {
        BlockBehavior::Air
    } else if path == bytes("redstone_wire") {
        BlockBehavior::Wire
    } else if path == bytes("lever") {
        BlockBehavior::Lever
    } else if ends_with(path, bytes("_button")) {
        BlockBehavior::Button {
            wooden: !(path == bytes("stone_button") || path == bytes("polished_blackstone_button")),
        }
    } else if path == bytes("redstone_block") {
        BlockBehavior::RedstoneBlock
    } else if path == bytes("redstone_torch") {
        BlockBehavior::Torch { wall: false }
    } else if path == bytes("redstone_wall_torch") {
        BlockBehavior::Torch { wall: true }
    } else if path == bytes("repeater") {
        BlockBehavior::Repeater
    } else if path == bytes("comparator") {
        BlockBehavior::Comparator
    } else if path == bytes("observer") {
        BlockBehavior::Observer
    } else if path == bytes("piston") {
        BlockBehavior::Piston { sticky: false }
    } else if path == bytes("sticky_piston") {
        BlockBehavior::Piston { sticky: true }
    } else if path == bytes("redstone_lamp") {
        BlockBehavior::Lamp
    } else if ends_with(path, bytes("_bulb")) {
        BlockBehavior::CopperBulb
    } else if path == bytes("target") {
        BlockBehavior::Target
    } else if path == bytes("light_weighted_pressure_plate") {
        BlockBehavior::PressurePlate { max_weight: Some(15), detects_items: true }
    } else if path == bytes("heavy_weighted_pressure_plate") {
        BlockBehavior::PressurePlate { max_weight: Some(150), detects_items: true }
    } else if ends_with(path, bytes("_pressure_plate")) {
        BlockBehavior::PressurePlate {
            max_weight: None,
            detects_items: !(path == bytes("stone_pressure_plate") || path == bytes("polished_blackstone_pressure_plate")),
        }
    } else if path == bytes("tripwire") {
        BlockBehavior::Tripwire
    } else if path == bytes("tripwire_hook") {
        BlockBehavior::TripwireHook
    } else if path == bytes("detector_rail") {
        BlockBehavior::DetectorRail
    } else if path == bytes("daylight_detector") {
        BlockBehavior::DaylightDetector
    } else if path == bytes("lectern") {
        BlockBehavior::Lectern
    } else if path == bytes("trapped_chest") {
        BlockBehavior::TrappedChest
    } else if path == bytes("hopper") {
        BlockBehavior::Hopper
    } else if path == bytes("dropper") {
        BlockBehavior::Dropper
    } else if path == bytes("dispenser") {
        BlockBehavior::Dispenser
    } else if path == bytes("crafter") {
        BlockBehavior::Crafter
    } else if path == bytes("tnt") {
        BlockBehavior::Tnt
    } else if ends_with(path, bytes("_door")) && !ends_with(path, bytes("_trapdoor")) {
        BlockBehavior::Door
    } else if ends_with(path, bytes("_trapdoor")) || ends_with(path, bytes("_fence_gate")) {
        BlockBehavior::PoweredConsumer
    } else if path == bytes("powered_rail") || path == bytes("activator_rail") {
        BlockBehavior::PoweredRail
    } else if path == bytes("note_block") {
        BlockBehavior::NoteBlock
    } else if path == bytes("bell") {
        BlockBehavior::Bell
    } else {
        BlockBehavior::Static
    }
}

fn behavior_of(path: &[u8]) -> (behavior: BlockBehavior)
    ensures
        behavior == spec_behavior_of(path@),
{
    if name_is(path, "air") || name_is(path, "cave_air") || name_is(path, "void_air") {
        BlockBehavior::Air
    } else if name_is(path, "redstone_wire") {
        BlockBehavior::Wire
    } else if name_is(path, "lever") {
        BlockBehavior::Lever
    } else if name_ends(path, "_button") {
        BlockBehavior::Button {
            wooden: !(name_is(path, "stone_button") || name_is(path, "polished_blackstone_button")),
        }
    } else if name_is(path, "redstone_block") {
        BlockBehavior::RedstoneBlock
    } else if name_is(path, "redstone_torch") {
        BlockBehavior::Torch { wall: false }
    } else if name_is(path, "redstone_wall_torch") {
        BlockBehavior::Torch { wall: true }
    } else if name_is(path, "repeater") {
        BlockBehavior::Repeater
    } else if name_is(path, "comparator") {
        BlockBehavior::Comparator
    } else if name_is(path, "observer") {
        BlockBehavior::Observer
    } else if name_is(path, "piston") {
        BlockBehavior::Piston { sticky: false }
    } else if name_is(path, "sticky_piston") {
        BlockBehavior::Piston { sticky: true }
    } else if name_is(path, "redstone_lamp") {
        BlockBehavior::Lamp
    } else if name_ends(path, "_bulb") {
        BlockBehavior::CopperBulb
    } else if name_is(path, "target") {
        BlockBehavior::Target
    } else if name_is(path, "light_weighted_pressure_plate") {
        BlockBehavior::PressurePlate { max_weight: Some(15), detects_items: true }
    } else if name_is(path, "heavy_weighted_pressure_plate") {
        BlockBehavior::PressurePlate { max_weight: Some(150), detects_items: true }
    } else if name_ends(path, "_pressure_plate") {
        BlockBehavior::PressurePlate {
            max_weight: None,
            detects_items: !(name_is(path, "stone_pressure_plate") || name_is(path, "polished_blackstone_pressure_plate")),
        }
    } else if name_is(path, "tripwire") {
        BlockBehavior::Tripwire
    } else if name_is(path, "tripwire_hook") {
        BlockBehavior::TripwireHook
    } else if name_is(path, "detector_rail") {
        BlockBehavior::DetectorRail
    } else if name_is(path, "daylight_detector") {
        BlockBehavior::DaylightDetector
    } else if name_is(path, "lectern") {
        BlockBehavior::Lectern
    } else if name_is(path, "trapped_chest") {
        BlockBehavior::TrappedChest
    } else if name_is(path, "hopper") {
        BlockBehavior::Hopper
    } else if name_is(path, "dropper") {
        BlockBehavior::Dropper
    } else if name_is(path, "dispenser") {
        BlockBehavior::Dispenser
    } else if name_is(path, "crafter") {
        BlockBehavior::Crafter
    } else if name_is(path, "tnt") {
        BlockBehavior::Tnt
    } else if name_ends(path, "_door") && !name_ends(path, "_trapdoor") {
        BlockBehavior::Door
    } else if name_ends(path, "_trapdoor") || name_ends(path, "_fence_gate") {
        BlockBehavior::PoweredConsumer
    } else if name_is(path, "powered_rail") || name_is(path, "activator_rail") {
        BlockBehavior::PoweredRail
    } else if name_is(path, "note_block") {
        BlockBehavior::NoteBlock
    } else if name_is(path, "bell") {
        BlockBehavior::Bell
    } else {
        BlockBehavior::Static
    }
}

/// What a block name and its properties decide: its behaviour, its piston
/// reaction, and whether the rules support it.
#[derive(Clone, Copy, Debug, PartialEq, Eq, Structural)]
pub struct BlockTraits {
    pub behavior: BlockBehavior,
    pub push_reaction: PushReaction,
    pub supported: bool,
}

/// The traits of a block named `name` with properties `properties`: the
/// behaviour of its path, its piston reaction, extended for a piston whose
/// `extended` property is `true`, and support for every behaviour but the
/// unsupported active one.
pub open spec fn spec_classify(name: Seq<u8>, properties: Seq<(&str, &str)>) -> BlockTraits {
    let p = path(name);
    let behavior = spec_behavior_of(p);
    let extended = (p == bytes("piston") || p == bytes("sticky_piston")) && property_of(
        properties,
        bytes("extended"),
    ) == Some(bytes("true"));
    BlockTraits {
        behavior,
        push_reaction: spec_piston_push_reaction(p, extended),
        supported: !(behavior is UnsupportedActive),
    }
}

/// The traits of a block named `name` with properties `properties`.
pub fn classify(name: &str, properties: &[(&str, &str)]) -> (traits: BlockTraits)
    ensures
        traits == spec_classify(bytes(name), properties@),
{
    let path = path_of(name);
    let behavior = behavior_of(path);
    let extended = (name_is(path, "piston") || name_is(path, "sticky_piston")) && match property(
        properties,
        "extended",
    ) {
        Some(value) => name_is(value.as_bytes(), "true"),
        None => false,
    };
    let supported = match behavior {
        BlockBehavior::UnsupportedActive => false,
        _ => true,
    };
    BlockTraits { behavior, push_reaction: push_reaction_of(path, extended), supported }
}

/// Whether a block definition type is one that carries a block entity.
pub open spec fn entity_block_type(kind: Seq<u8>) -> bool {
    kind == bytes("banner")
        || kind == bytes("barrel")
        || kind == bytes("beacon")
        || kind == bytes("bed")
        || kind == bytes("beehive")
        || kind == bytes("bell")
        || kind == bytes("blast_furnace")
        || kind == bytes("brewing_stand")
        || kind == bytes("brushable")
        || kind == bytes("calibrated_sculk_sensor")
        || kind == bytes("campfire")
        || kind == bytes("ceiling_hanging_sign")
        || kind == bytes("chest")
        || kind == bytes("chiseled_book_shelf")
        || kind == bytes("command")
        || kind == bytes("comparator")
        || kind == bytes("conduit")
        || kind == bytes("copper_chest")
        || kind == bytes("copper_golem_statue")
        || kind == bytes("crafter")
        || kind == bytes("creaking_heart")
        || kind == bytes("daylight_detector")
        || kind == bytes("decorated_pot")
        || kind == bytes("dispenser")
        || kind == bytes("dropper")
        || kind == bytes("enchantment_table")
        || kind == bytes("end_gateway")
        || kind == bytes("end_portal")
        || kind == bytes("ender_chest")
        || kind == bytes("furnace")
        || kind == bytes("hopper")
        || kind == bytes("jigsaw")
        || kind == bytes("jukebox")
        || kind == bytes("lectern")
        || kind == bytes("moving_piston")
        || kind == bytes("piglinwallskull")
        || kind == bytes("player_head")
        || kind == bytes("player_wall_head")
        || kind == bytes("sculk_catalyst")
        || kind == bytes("sculk_sensor")
        || kind == bytes("sculk_shrieker")
        || kind == bytes("shelf")
        || kind == bytes("shulker_box")
        || kind == bytes("skull")
        || kind == bytes("smoker")
        || kind == bytes("spawner")
        || kind == bytes("standing_sign")
        || kind == bytes("structure")
        || kind == bytes("test")
        || kind == bytes("test_instance")
        || kind == bytes("trapped_chest")
        || kind == bytes("trial_spawner")
        || kind == bytes("vault")
        || kind == bytes("wall_banner")
        || kind == bytes("wall_hanging_sign")
        || kind == bytes("wall_sign")
        || kind == bytes("wall_skull")
        || kind == bytes("weathering_copper_chest")
        || kind == bytes("weathering_copper_golem_statue")
        || kind == bytes("wither_skull")
        || kind == bytes("wither_wall_skull")
}

fn is_entity_block_type(kind: &[u8]) -> (result: bool)
    ensures
        result == entity_block_type(kind@),
{
    name_is(kind, "banner")
        || name_is(kind, "barrel")
        || name_is(kind, "beacon")
        || name_is(kind, "bed")
        || name_is(kind, "beehive")
        || name_is(kind, "bell")
        || name_is(kind, "blast_furnace")
        || name_is(kind, "brewing_stand")
        || name_is(kind, "brushable")
        || name_is(kind, "calibrated_sculk_sensor")
        || name_is(kind, "campfire")
        || name_is(kind, "ceiling_hanging_sign")
        || name_is(kind, "chest")
        || name_is(kind, "chiseled_book_shelf")
        || name_is(kind, "command")
        || name_is(kind, "comparator")
        || name_is(kind, "conduit")
        || name_is(kind, "copper_chest")
        || name_is(kind, "copper_golem_statue")
        || name_is(kind, "crafter")
        || name_is(kind, "creaking_heart")
        || name_is(kind, "daylight_detector")
        || name_is(kind, "decorated_pot")
        || name_is(kind, "dispenser")
        || name_is(kind, "dropper")
        || name_is(kind, "enchantment_table")
        || name_is(kind, "end_gateway")
        || name_is(kind, "end_portal")
        || name_is(kind, "ender_chest")
        || name_is(kind, "furnace")
        || name_is(kind, "hopper")
        || name_is(kind, "jigsaw")
        || name_is(kind, "jukebox")
        || name_is(kind, "lectern")
        || name_is(kind, "moving_piston")
        || name_is(kind, "piglinwallskull")
        || name_is(kind, "player_head")
        || name_is(kind, "player_wall_head")
        || name_is(kind, "sculk_catalyst")
        || name_is(kind, "sculk_sensor")
        || name_is(kind, "sculk_shrieker")
        || name_is(kind, "shelf")
        || name_is(kind, "shulker_box")
        || name_is(kind, "skull")
        || name_is(kind, "smoker")
        || name_is(kind, "spawner")
        || name_is(kind, "standing_sign")
        || name_is(kind, "structure")
        || name_is(kind, "test")
        || name_is(kind, "test_instance")
        || name_is(kind, "trapped_chest")
        || name_is(kind, "trial_spawner")
        || name_is(kind, "vault")
        || name_is(kind, "wall_banner")
        || name_is(kind, "wall_hanging_sign")
        || name_is(kind, "wall_sign")
        || name_is(kind, "wall_skull")
        || name_is(kind, "weathering_copper_chest")
        || name_is(kind, "weathering_copper_golem_statue")
        || name_is(kind, "wither_skull")
        || name_is(kind, "wither_wall_skull")
}

/// Whether a block definition of type `block_type` carries a block entity.
pub open spec fn spec_block_definition_has_entity(block_type: Seq<u8>) -> bool {
    entity_block_type(path(block_type))
}

/// Whether a block definition of type `block_type` carries a block entity.
pub fn block_definition_has_entity(block_type: &str) -> (result: bool)
    ensures
        result == spec_block_definition_has_entity(bytes(block_type)),
{
    is_entity_block_type(path_of(block_type))
}



/// A redstone lamp, and nothing else, behaves as a lamp: the path
/// `redstone_lamp` classifies as `Lamp` whatever the block's properties, and
/// no other path does.
pub proof fn law_lamp_behavior(name: Seq<u8>, properties: Seq<(&str, &str)>)
    ensures
        spec_behavior_of(path(name)) == BlockBehavior::Lamp <==> path(name) == bytes("redstone_lamp"),
        spec_classify(name, properties).behavior == BlockBehavior::Lamp <==> path(name) == bytes("redstone_lamp"),
{
    lemma_redstone_lamp_path_reached();
}

/// The blocks that pistons can never move (bedrock, obsidian, crying
/// obsidian, respawn anchors, reinforced deepslate, end portal frames, piston
/// parts, barriers, light, portals, gateways, anvils, grindstones and
/// lodestones) block a piston, whether or not it is extended, and so do the
/// blocks of every name with such a path, whatever their properties.
pub proof fn law_immovable_blocks_block(name: Seq<u8>, properties: Seq<(&str, &str)>, extended: bool)
    requires
        path(name) == bytes("bedrock") || path(name) == bytes("obsidian") || path(name) == bytes("crying_obsidian")
            || path(name) == bytes("respawn_anchor") || path(name) == bytes("reinforced_deepslate") || path(name) == bytes(
            "end_portal_frame",
        ) || path(name) == bytes("moving_piston") || path(name) == bytes("piston_head") || path(name) == bytes("barrier")
            || path(name) == bytes("light") || path(name) == bytes("nether_portal") || path(name) == bytes("end_portal")
            || path(name) == bytes("end_gateway") || path(name) == bytes("anvil") || path(name) == bytes("chipped_anvil")
            || path(name) == bytes("damaged_anvil") || path(name) == bytes("grindstone") || path(name) == bytes("lodestone"),
    ensures
        spec_piston_push_reaction(path(name), extended) == PushReaction::Block,
        spec_piston_push_reaction(path(name), false) == spec_piston_push_reaction(path(name), true),
        spec_classify(name, properties).push_reaction == PushReaction::Block,
{
}


/// The lengths of the block paths that classification tests, and the
/// bytes at which those of one length part.
proof fn lemma_path_literals()
    ensures
        bytes("redstone_wire").len() == 13,
        bytes("air").len() == 3,
        bytes("cave_air").len() == 8,
        bytes("void_air").len() == 8,
        bytes("lever").len() == 5,
        bytes("redstone_block").len() == 14,
        bytes("_button").len() == 7,
        bytes("redstone_torch").len() == 14,
        bytes("redstone_wall_torch").len() == 19,
        bytes("repeater").len() == 8,
        bytes("comparator").len() == 10,
        bytes("observer").len() == 8,
        bytes("piston").len() == 6,
        bytes("sticky_piston").len() == 13,
        bytes("redstone_lamp").len() == 13,
        bytes("target").len() == 6,
        bytes("_bulb").len() == 5,
        bytes("tripwire").len() == 8,
        bytes("light_weighted_pressure_plate").len() == 29,
        bytes("heavy_weighted_pressure_plate").len() == 29,
        bytes("_pressure_plate").len() == 15,
        bytes("tripwire_hook").len() == 13,
        bytes("detector_rail").len() == 13,
        bytes("daylight_detector").len() == 17,
        bytes("lectern").len() == 7,
        bytes("trapped_chest").len() == 13,
        bytes("hopper").len() == 6,
        bytes("dropper").len() == 7,
        bytes("dispenser").len() == 9,
        bytes("crafter").len() == 7,
        bytes("tnt").len() == 3,
        bytes("powered_rail").len() == 12,
        bytes("_door").len() == 5,
        bytes("_trapdoor").len() == 9,
        bytes("_fence_gate").len() == 11,
        bytes("activator_rail").len() == 14,
        bytes("note_block").len() == 10,
        bytes("bell").len() == 4,
        bytes("redstone_block")[7] == 'e' as u8,
        bytes("_button")[0] == '_' as u8,
        bytes("redstone_torch")[7] == 'e' as u8,
        bytes("redstone_torch")[9] == 't' as u8,
        bytes("redstone_block")[9] == 'b' as u8,
        bytes("redstone_wall_torch")[12] == 'l' as u8,
        bytes("repeater")[0] == 'r' as u8,
        bytes("cave_air")[0] == 'c' as u8,
        bytes("void_air")[0] == 'v' as u8,
        bytes("repeater")[1] == 'e' as u8,
        bytes("comparator")[3] == 'p' as u8,
        bytes("observer")[0] == 'o' as u8,
        bytes("observer")[1] == 'b' as u8,
        bytes("sticky_piston")[0] == 's' as u8,
        bytes("redstone_wire")[0] == 'r' as u8,
        bytes("sticky_piston")[7] == 'p' as u8,
        bytes("_button")[1] == 'b' as u8,
        bytes("redstone_lamp")[9] == 'l' as u8,
        bytes("redstone_wire")[9] == 'w' as u8,
        bytes("redstone_lamp")[6] == 'n' as u8,
        bytes("redstone_lamp")[0] == 'r' as u8,
        bytes("target")[0] == 't' as u8,
        bytes("piston")[0] == 'p' as u8,
        bytes("target")[1] == 'a' as u8,
        bytes("_bulb")[0] == '_' as u8,
        bytes("tripwire")[0] == 't' as u8,
        bytes("tripwire")[1] == 'r' as u8,
        bytes("tripwire")[3] == 'p' as u8,
        bytes("tripwire_hook")[0] == 't' as u8,
        bytes("tripwire_hook")[6] == 'r' as u8,
        bytes("tripwire_hook")[9] == 'h' as u8,
        bytes("_bulb")[1] == 'b' as u8,
        bytes("detector_rail")[0] == 'd' as u8,
        bytes("detector_rail")[6] == 'o' as u8,
        bytes("detector_rail")[9] == 'r' as u8,
        bytes("daylight_detector")[10] == 'e' as u8,
        bytes("daylight_detector")[12] == 'e' as u8,
        bytes("daylight_detector")[2] == 'y' as u8,
        bytes("_pressure_plate")[0] == '_' as u8,
        bytes("lectern")[0] == 'l' as u8,
        bytes("lectern")[2] == 'c' as u8,
        bytes("trapped_chest")[0] == 't' as u8,
        bytes("trapped_chest")[6] == 'd' as u8,
        bytes("trapped_chest")[8] == 'c' as u8,
        bytes("trapped_chest")[2] == 'a' as u8,
        bytes("tripwire_hook")[2] == 'i' as u8,
        bytes("hopper")[0] == 'h' as u8,
        bytes("hopper")[1] == 'o' as u8,
        bytes("dropper")[0] == 'd' as u8,
        bytes("dropper")[2] == 'o' as u8,
        bytes("dispenser")[2] == 's' as u8,
        bytes("dispenser")[4] == 'e' as u8,
        bytes("crafter")[0] == 'c' as u8,
        bytes("crafter")[2] == 'a' as u8,
        bytes("tnt")[0] == 't' as u8,
        bytes("air")[0] == 'a' as u8,
        bytes("powered_rail")[5] == 'e' as u8,
        bytes("powered_rail")[8] == 'r' as u8,
        bytes("_door")[1] == 'd' as u8,
        bytes("powered_rail")[3] == 'e' as u8,
        bytes("_trapdoor")[0] == '_' as u8,
        bytes("powered_rail")[1] == 'o' as u8,
        bytes("_fence_gate")[0] == '_' as u8,
        bytes("activator_rail")[7] == 'o' as u8,
        bytes("activator_rail")[0] == 'a' as u8,
        bytes("redstone_block")[0] == 'r' as u8,
        bytes("redstone_torch")[0] == 'r' as u8,
        bytes("activator_rail")[10] == 'r' as u8,
        bytes("activator_rail")[5] == 'a' as u8,
        bytes("activator_rail")[3] == 'i' as u8,
        bytes("note_block")[3] == 'e' as u8,
        bytes("note_block")[0] == 'n' as u8,
        bytes("comparator")[0] == 'c' as u8,
        bytes("note_block")[5] == 'b' as u8,
        bytes("_door")[0] == '_' as u8,
        bytes("note_block")[1] == 'o' as u8,
{
    reveal_strlit("redstone_wire");
    lemma_ascii_bytes("redstone_wire");
    reveal_strlit("air");
    lemma_ascii_bytes("air");
    reveal_strlit("cave_air");
    lemma_ascii_bytes("cave_air");
    reveal_strlit("void_air");
    lemma_ascii_bytes("void_air");
    reveal_strlit("lever");
    lemma_ascii_bytes("lever");
    reveal_strlit("redstone_block");
    lemma_ascii_bytes("redstone_block");
    reveal_strlit("_button");
    lemma_ascii_bytes("_button");
    reveal_strlit("redstone_torch");
    lemma_ascii_bytes("redstone_torch");
    reveal_strlit("redstone_wall_torch");
    lemma_ascii_bytes("redstone_wall_torch");
    reveal_strlit("repeater");
    lemma_ascii_bytes("repeater");
    reveal_strlit("comparator");
    lemma_ascii_bytes("comparator");
    reveal_strlit("observer");
    lemma_ascii_bytes("observer");
    reveal_strlit("piston");
    lemma_ascii_bytes("piston");
    reveal_strlit("sticky_piston");
    lemma_ascii_bytes("sticky_piston");
    reveal_strlit("redstone_lamp");
    lemma_ascii_bytes("redstone_lamp");
    reveal_strlit("target");
    lemma_ascii_bytes("target");
    reveal_strlit("_bulb");
    lemma_ascii_bytes("_bulb");
    reveal_strlit("tripwire");
    lemma_ascii_bytes("tripwire");
    reveal_strlit("light_weighted_pressure_plate");
    lemma_ascii_bytes("light_weighted_pressure_plate");
    reveal_strlit("heavy_weighted_pressure_plate");
    lemma_ascii_bytes("heavy_weighted_pressure_plate");
    reveal_strlit("_pressure_plate");
    lemma_ascii_bytes("_pressure_plate");
    reveal_strlit("tripwire_hook");
    lemma_ascii_bytes("tripwire_hook");
    reveal_strlit("detector_rail");
    lemma_ascii_bytes("detector_rail");
    reveal_strlit("daylight_detector");
    lemma_ascii_bytes("daylight_detector");
    reveal_strlit("lectern");
    lemma_ascii_bytes("lectern");
    reveal_strlit("trapped_chest");
    lemma_ascii_bytes("trapped_chest");
    reveal_strlit("hopper");
    lemma_ascii_bytes("hopper");
    reveal_strlit("dropper");
    lemma_ascii_bytes("dropper");
    reveal_strlit("dispenser");
    lemma_ascii_bytes("dispenser");
    reveal_strlit("crafter");
    lemma_ascii_bytes("crafter");
    reveal_strlit("tnt");
    lemma_ascii_bytes("tnt");
    reveal_strlit("powered_rail");
    lemma_ascii_bytes("powered_rail");
    reveal_strlit("_door");
    lemma_ascii_bytes("_door");
    reveal_strlit("_trapdoor");
    lemma_ascii_bytes("_trapdoor");
    reveal_strlit("_fence_gate");
    lemma_ascii_bytes("_fence_gate");
    reveal_strlit("activator_rail");
    lemma_ascii_bytes("activator_rail");
    reveal_strlit("note_block");
    lemma_ascii_bytes("note_block");
    reveal_strlit("bell");
    lemma_ascii_bytes("bell");
}

/// The path `redstone_wire` classifies as `Wire`.
proof fn lemma_redstone_wire_path_reached()
    ensures
        spec_behavior_of(bytes("redstone_wire")) == BlockBehavior::Wire,
{
    lemma_path_literals();
    let p = bytes("redstone_wire");
}

/// The path `lever` classifies as `Lever`.
proof fn lemma_lever_path_reached()
    ensures
        spec_behavior_of(bytes("lever")) == BlockBehavior::Lever,
{
    lemma_path_literals();
    let p = bytes("lever");
}

/// The path `redstone_block` classifies as `RedstoneBlock`.
proof fn lemma_redstone_block_path_reached()
    ensures
        spec_behavior_of(bytes("redstone_block")) == BlockBehavior::RedstoneBlock,
{
    lemma_path_literals();
    let p = bytes("redstone_block");
    lemma_differ_at(p.subrange(7, 14), bytes("_button"), 0);
}

/// The path `redstone_torch` classifies as `Torch { wall: false }`.
proof fn lemma_redstone_torch_path_reached()
    ensures
        spec_behavior_of(bytes("redstone_torch")) == (BlockBehavior::Torch { wall: false }),
{
    lemma_path_literals();
    let p = bytes("redstone_torch");
    lemma_differ_at(p.subrange(7, 14), bytes("_button"), 0);
    lemma_differ_at(p, bytes("redstone_block"), 9);
}

/// The path `redstone_wall_torch` classifies as `Torch { wall: true }`.
proof fn lemma_redstone_wall_torch_path_reached()
    ensures
        spec_behavior_of(bytes("redstone_wall_torch")) == (BlockBehavior::Torch { wall: true }),
{
    lemma_path_literals();
    let p = bytes("redstone_wall_torch");
    lemma_differ_at(p.subrange(12, 19), bytes("_button"), 0);
}

/// The path `repeater` classifies as `Repeater`.
proof fn lemma_repeater_path_reached()
    ensures
        spec_behavior_of(bytes("repeater")) == BlockBehavior::Repeater,
{
    lemma_path_literals();
    let p = bytes("repeater");
    lemma_differ_at(p, bytes("cave_air"), 0);
    lemma_differ_at(p, bytes("void_air"), 0);
    lemma_differ_at(p.subrange(1, 8), bytes("_button"), 0);
}

/// The path `comparator` classifies as `Comparator`.
proof fn lemma_comparator_path_reached()
    ensures
        spec_behavior_of(bytes("comparator")) == BlockBehavior::Comparator,
{
    lemma_path_literals();
    let p = bytes("comparator");
    lemma_differ_at(p.subrange(3, 10), bytes("_button"), 0);
}

/// The path `observer` classifies as `Observer`.
proof fn lemma_observer_path_reached()
    ensures
        spec_behavior_of(bytes("observer")) == BlockBehavior::Observer,
{
    lemma_path_literals();
    let p = bytes("observer");
    lemma_differ_at(p, bytes("cave_air"), 0);
    lemma_differ_at(p, bytes("void_air"), 0);
    lemma_differ_at(p.subrange(1, 8), bytes("_button"), 0);
    lemma_differ_at(p, bytes("repeater"), 0);
}

/// The path `piston` classifies as `Piston { sticky: false }`.
proof fn lemma_piston_path_reached()
    ensures
        spec_behavior_of(bytes("piston")) == (BlockBehavior::Piston { sticky: false }),
{
    lemma_path_literals();
    let p = bytes("piston");
}

/// The path `sticky_piston` classifies as `Piston { sticky: true }`.
proof fn lemma_sticky_piston_path_reached()
    ensures
        spec_behavior_of(bytes("sticky_piston")) == (BlockBehavior::Piston { sticky: true }),
{
    lemma_path_literals();
    let p = bytes("sticky_piston");
    lemma_differ_at(p, bytes("redstone_wire"), 0);
    lemma_differ_at(p.subrange(6, 13), bytes("_button"), 1);
}

/// The path `redstone_lamp` classifies as `Lamp`.
proof fn lemma_redstone_lamp_path_reached()
    ensures
        spec_behavior_of(bytes("redstone_lamp")) == BlockBehavior::Lamp,
{
    lemma_path_literals();
    let p = bytes("redstone_lamp");
    lemma_differ_at(p, bytes("redstone_wire"), 9);
    lemma_differ_at(p.subrange(6, 13), bytes("_button"), 0);
    lemma_differ_at(p, bytes("sticky_piston"), 0);
}

/// The path `target` classifies as `Target`.
proof fn lemma_target_path_reached()
    ensures
        spec_behavior_of(bytes("target")) == BlockBehavior::Target,
{
    lemma_path_literals();
    let p = bytes("target");
    lemma_differ_at(p, bytes("piston"), 0);
    lemma_differ_at(p.subrange(1, 6), bytes("_bulb"), 0);
}

/// The path `tripwire` classifies as `Tripwire`.
proof fn lemma_tripwire_path_reached()
    ensures
        spec_behavior_of(bytes("tripwire")) == BlockBehavior::Tripwire,
{
    lemma_path_literals();
    let p = bytes("tripwire");
    lemma_differ_at(p, bytes("cave_air"), 0);
    lemma_differ_at(p, bytes("void_air"), 0);
    lemma_differ_at(p.subrange(1, 8), bytes("_button"), 0);
    lemma_differ_at(p, bytes("repeater"), 0);
    lemma_differ_at(p, bytes("observer"), 0);
    lemma_differ_at(p.subrange(3, 8), bytes("_bulb"), 0);
}

/// The path `tripwire_hook` classifies as `TripwireHook`.
proof fn lemma_tripwire_hook_path_reached()
    ensures
        spec_behavior_of(bytes("tripwire_hook")) == BlockBehavior::TripwireHook,
{
    lemma_path_literals();
    let p = bytes("tripwire_hook");
    lemma_differ_at(p, bytes("redstone_wire"), 0);
    lemma_differ_at(p.subrange(6, 13), bytes("_button"), 0);
    lemma_differ_at(p, bytes("sticky_piston"), 0);
    lemma_differ_at(p, bytes("redstone_lamp"), 0);
    lemma_differ_at(p.subrange(8, 13), bytes("_bulb"), 1);
}

/// The path `detector_rail` classifies as `DetectorRail`.
proof fn lemma_detector_rail_path_reached()
    ensures
        spec_behavior_of(bytes("detector_rail")) == BlockBehavior::DetectorRail,
{
    lemma_path_literals();
    let p = bytes("detector_rail");
    lemma_differ_at(p, bytes("redstone_wire"), 0);
    lemma_differ_at(p.subrange(6, 13), bytes("_button"), 0);
    lemma_differ_at(p, bytes("sticky_piston"), 0);
    lemma_differ_at(p, bytes("redstone_lamp"), 0);
    lemma_differ_at(p.subrange(8, 13), bytes("_bulb"), 1);
    lemma_differ_at(p, bytes("tripwire_hook"), 0);
}

/// The path `daylight_detector` classifies as `DaylightDetector`.
proof fn lemma_daylight_detector_path_reached()
    ensures
        spec_behavior_of(bytes("daylight_detector")) == BlockBehavior::DaylightDetector,
{
    lemma_path_literals();
    let p = bytes("daylight_detector");
    lemma_differ_at(p.subrange(10, 17), bytes("_button"), 0);
    lemma_differ_at(p.subrange(12, 17), bytes("_bulb"), 0);
    lemma_differ_at(p.subrange(2, 17), bytes("_pressure_plate"), 0);
}

/// The path `lectern` classifies as `Lectern`.
proof fn lemma_lectern_path_reached()
    ensures
        spec_behavior_of(bytes("lectern")) == BlockBehavior::Lectern,
{
    lemma_path_literals();
    let p = bytes("lectern");
    lemma_differ_at(p.subrange(0, 7), bytes("_button"), 0);
    lemma_differ_at(p.subrange(2, 7), bytes("_bulb"), 0);
}

/// The path `trapped_chest` classifies as `TrappedChest`.
proof fn lemma_trapped_chest_path_reached()
    ensures
        spec_behavior_of(bytes("trapped_chest")) == BlockBehavior::TrappedChest,
{
    lemma_path_literals();
    let p = bytes("trapped_chest");
    lemma_differ_at(p, bytes("redstone_wire"), 0);
    lemma_differ_at(p.subrange(6, 13), bytes("_button"), 0);
    lemma_differ_at(p, bytes("sticky_piston"), 0);
    lemma_differ_at(p, bytes("redstone_lamp"), 0);
    lemma_differ_at(p.subrange(8, 13), bytes("_bulb"), 0);
    lemma_differ_at(p, bytes("tripwire_hook"), 2);
    lemma_differ_at(p, bytes("detector_rail"), 0);
}

/// The path `hopper` classifies as `Hopper`.
proof fn lemma_hopper_path_reached()
    ensures
        spec_behavior_of(bytes("hopper")) == BlockBehavior::Hopper,
{
    lemma_path_literals();
    let p = bytes("hopper");
    lemma_differ_at(p, bytes("piston"), 0);
    lemma_differ_at(p.subrange(1, 6), bytes("_bulb"), 0);
    lemma_differ_at(p, bytes("target"), 0);
}

/// The path `dropper` classifies as `Dropper`.
proof fn lemma_dropper_path_reached()
    ensures
        spec_behavior_of(bytes("dropper")) == BlockBehavior::Dropper,
{
    lemma_path_literals();
    let p = bytes("dropper");
    lemma_differ_at(p.subrange(0, 7), bytes("_button"), 0);
    lemma_differ_at(p.subrange(2, 7), bytes("_bulb"), 0);
    lemma_differ_at(p, bytes("lectern"), 0);
}

/// The path `dispenser` classifies as `Dispenser`.
proof fn lemma_dispenser_path_reached()
    ensures
        spec_behavior_of(bytes("dispenser")) == BlockBehavior::Dispenser,
{
    lemma_path_literals();
    let p = bytes("dispenser");
    lemma_differ_at(p.subrange(2, 9), bytes("_button"), 0);
    lemma_differ_at(p.subrange(4, 9), bytes("_bulb"), 0);
}

/// The path `crafter` classifies as `Crafter`.
proof fn lemma_crafter_path_reached()
    ensures
        spec_behavior_of(bytes("crafter")) == BlockBehavior::Crafter,
{
    lemma_path_literals();
    let p = bytes("crafter");
    lemma_differ_at(p.subrange(0, 7), bytes("_button"), 0);
    lemma_differ_at(p.subrange(2, 7), bytes("_bulb"), 0);
    lemma_differ_at(p, bytes("lectern"), 0);
    lemma_differ_at(p, bytes("dropper"), 0);
}

/// The path `tnt` classifies as `Tnt`.
proof fn lemma_tnt_path_reached()
    ensures
        spec_behavior_of(bytes("tnt")) == BlockBehavior::Tnt,
{
    lemma_path_literals();
    let p = bytes("tnt");
    lemma_differ_at(p, bytes("air"), 0);
}

/// The path `powered_rail` classifies as `PoweredRail`.
proof fn lemma_powered_rail_path_reached()
    ensures
        spec_behavior_of(bytes("powered_rail")) == BlockBehavior::PoweredRail,
{
    lemma_path_literals();
    let p = bytes("powered_rail");
    lemma_differ_at(p.subrange(5, 12), bytes("_button"), 0);
    lemma_differ_at(p.subrange(7, 12), bytes("_bulb"), 1);
    lemma_differ_at(p.subrange(7, 12), bytes("_door"), 1);
    lemma_differ_at(p.subrange(3, 12), bytes("_trapdoor"), 0);
    lemma_differ_at(p.subrange(3, 12), bytes("_trapdoor"), 0);
    lemma_differ_at(p.subrange(1, 12), bytes("_fence_gate"), 0);
}

/// The path `activator_rail` classifies as `PoweredRail`.
proof fn lemma_activator_rail_path_reached()
    ensures
        spec_behavior_of(bytes("activator_rail")) == BlockBehavior::PoweredRail,
{
    lemma_path_literals();
    let p = bytes("activator_rail");
    lemma_differ_at(p.subrange(7, 14), bytes("_button"), 0);
    lemma_differ_at(p, bytes("redstone_block"), 0);
    lemma_differ_at(p, bytes("redstone_torch"), 0);
    lemma_differ_at(p.subrange(9, 14), bytes("_bulb"), 1);
    lemma_differ_at(p.subrange(9, 14), bytes("_door"), 1);
    lemma_differ_at(p.subrange(5, 14), bytes("_trapdoor"), 0);
    lemma_differ_at(p.subrange(5, 14), bytes("_trapdoor"), 0);
    lemma_differ_at(p.subrange(3, 14), bytes("_fence_gate"), 0);
}

/// The path `note_block` classifies as `NoteBlock`.
proof fn lemma_note_block_path_reached()
    ensures
        spec_behavior_of(bytes("note_block")) == BlockBehavior::NoteBlock,
{
    lemma_path_literals();
    let p = bytes("note_block");
    lemma_differ_at(p.subrange(3, 10), bytes("_button"), 0);
    lemma_differ_at(p, bytes("comparator"), 0);
    lemma_differ_at(p.subrange(5, 10), bytes("_bulb"), 0);
    lemma_differ_at(p.subrange(5, 10), bytes("_door"), 0);
    lemma_differ_at(p.subrange(1, 10), bytes("_trapdoor"), 0);
    lemma_differ_at(p.subrange(1, 10), bytes("_trapdoor"), 0);
}

/// The path `bell` classifies as `Bell`.
proof fn lemma_bell_path_reached()
    ensures
        spec_behavior_of(bytes("bell")) == BlockBehavior::Bell,
{
    lemma_path_literals();
    let p = bytes("bell");
}

/// Whether `p` is a path of the redstone component with behaviour
/// `behavior`, for the behaviours that a fixed set of paths names.
pub open spec fn component_path(behavior: BlockBehavior, p: Seq<u8>) -> bool {
    match behavior {
        BlockBehavior::Air => p == bytes("air") || p == bytes("cave_air") || p == bytes("void_air"),
        BlockBehavior::Wire => p == bytes("redstone_wire"),
        BlockBehavior::Lever => p == bytes("lever"),
        BlockBehavior::RedstoneBlock => p == bytes("redstone_block"),
        BlockBehavior::Torch { wall: false } => p == bytes("redstone_torch"),
        BlockBehavior::Torch { wall: true } => p == bytes("redstone_wall_torch"),
        BlockBehavior::Repeater => p == bytes("repeater"),
        BlockBehavior::Comparator => p == bytes("comparator"),
        BlockBehavior::Observer => p == bytes("observer"),
        BlockBehavior::Piston { sticky: false } => p == bytes("piston"),
        BlockBehavior::Piston { sticky: true } => p == bytes("sticky_piston"),
        BlockBehavior::Lamp => p == bytes("redstone_lamp"),
        BlockBehavior::Target => p == bytes("target"),
        BlockBehavior::Tripwire => p == bytes("tripwire"),
        BlockBehavior::TripwireHook => p == bytes("tripwire_hook"),
        BlockBehavior::DetectorRail => p == bytes("detector_rail"),
        BlockBehavior::DaylightDetector => p == bytes("daylight_detector"),
        BlockBehavior::Lectern => p == bytes("lectern"),
        BlockBehavior::TrappedChest => p == bytes("trapped_chest"),
        BlockBehavior::Hopper => p == bytes("hopper"),
        BlockBehavior::Dropper => p == bytes("dropper"),
        BlockBehavior::Dispenser => p == bytes("dispenser"),
        BlockBehavior::Crafter => p == bytes("crafter"),
        BlockBehavior::Tnt => p == bytes("tnt"),
        BlockBehavior::PoweredRail => p == bytes("powered_rail") || p == bytes("activator_rail"),
        BlockBehavior::NoteBlock => p == bytes("note_block"),
        BlockBehavior::Bell => p == bytes("bell"),
        _ => false,
    }
}

/// Whether a fixed set of paths names the behaviour.
pub open spec fn named_by_paths(behavior: BlockBehavior) -> bool {
    match behavior {
        BlockBehavior::Air => true,
        BlockBehavior::Wire => true,
        BlockBehavior::Lever => true,
        BlockBehavior::RedstoneBlock => true,
        BlockBehavior::Torch { wall: false } => true,
        BlockBehavior::Torch { wall: true } => true,
        BlockBehavior::Repeater => true,
        BlockBehavior::Comparator => true,
        BlockBehavior::Observer => true,
        BlockBehavior::Piston { sticky: false } => true,
        BlockBehavior::Piston { sticky: true } => true,
        BlockBehavior::Lamp => true,
        BlockBehavior::Target => true,
        BlockBehavior::Tripwire => true,
        BlockBehavior::TripwireHook => true,
        BlockBehavior::DetectorRail => true,
        BlockBehavior::DaylightDetector => true,
        BlockBehavior::Lectern => true,
        BlockBehavior::TrappedChest => true,
        BlockBehavior::Hopper => true,
        BlockBehavior::Dropper => true,
        BlockBehavior::Dispenser => true,
        BlockBehavior::Crafter => true,
        BlockBehavior::Tnt => true,
        BlockBehavior::PoweredRail => true,
        BlockBehavior::NoteBlock => true,
        BlockBehavior::Bell => true,
        _ => false,
    }
}

/// Each redstone component named by fixed paths (air, wire, lever, block of
/// redstone, torches, repeater, comparator, observer, pistons, lamp, target,
/// tripwire and hook, detector rail, daylight detector, lectern, trapped
/// chest, hopper, dropper, dispenser, crafter, TNT, powered and activator
/// rails, note block, bell) has exactly those paths: a block classifies as
/// that behaviour, whatever its properties, if and only if its path is one
/// of them.
pub proof fn law_component_paths(behavior: BlockBehavior, name: Seq<u8>, properties: Seq<(&str, &str)>)
    requires
        named_by_paths(behavior),
    ensures
        spec_behavior_of(path(name)) == behavior <==> component_path(behavior, path(name)),
        spec_classify(name, properties).behavior == behavior <==> component_path(behavior, path(name)),
{
    match behavior {
        BlockBehavior::Air => {
        },
        BlockBehavior::Wire => {
            lemma_redstone_wire_path_reached();
        },
        BlockBehavior::Lever => {
            lemma_lever_path_reached();
        },
        BlockBehavior::RedstoneBlock => {
            lemma_redstone_block_path_reached();
        },
        BlockBehavior::Torch { wall: false } => {
            lemma_redstone_torch_path_reached();
        },
        BlockBehavior::Torch { wall: true } => {
            lemma_redstone_wall_torch_path_reached();
        },
        BlockBehavior::Repeater => {
            lemma_repeater_path_reached();
        },
        BlockBehavior::Comparator => {
            lemma_comparator_path_reached();
        },
        BlockBehavior::Observer => {
            lemma_observer_path_reached();
        },
        BlockBehavior::Piston { sticky: false } => {
            lemma_piston_path_reached();
        },
        BlockBehavior::Piston { sticky: true } => {
            lemma_sticky_piston_path_reached();
        },
        BlockBehavior::Lamp => {
            lemma_redstone_lamp_path_reached();
        },
        BlockBehavior::Target => {
            lemma_target_path_reached();
        },
        BlockBehavior::Tripwire => {
            lemma_tripwire_path_reached();
        },
        BlockBehavior::TripwireHook => {
            lemma_tripwire_hook_path_reached();
        },
        BlockBehavior::DetectorRail => {
            lemma_detector_rail_path_reached();
        },
        BlockBehavior::DaylightDetector => {
            lemma_daylight_detector_path_reached();
        },
        BlockBehavior::Lectern => {
            lemma_lectern_path_reached();
        },
        BlockBehavior::TrappedChest => {
            lemma_trapped_chest_path_reached();
        },
        BlockBehavior::Hopper => {
            lemma_hopper_path_reached();
        },
        BlockBehavior::Dropper => {
            lemma_dropper_path_reached();
        },
        BlockBehavior::Dispenser => {
            lemma_dispenser_path_reached();
        },
        BlockBehavior::Crafter => {
            lemma_crafter_path_reached();
        },
        BlockBehavior::Tnt => {
            lemma_tnt_path_reached();
        },
        BlockBehavior::PoweredRail => {
            lemma_powered_rail_path_reached();
            lemma_activator_rail_path_reached();
        },
        BlockBehavior::NoteBlock => {
            lemma_note_block_path_reached();
        },
        BlockBehavior::Bell => {
            lemma_bell_path_reached();
        },
        _ => {},
    }
}


/// The lengths of the paths and suffixes that the push reaction tests,
/// and the bytes at which those that meet part.
proof fn lemma_push_literals()
    ensures
        bytes("_glazed_terracotta").len() == 18,
        bytes("bedrock").len() == 7,
        bytes("obsidian").len() == 8,
        bytes("crying_obsidian").len() == 15,
        bytes("respawn_anchor").len() == 14,
        bytes("reinforced_deepslate").len() == 20,
        bytes("end_portal_frame").len() == 16,
        bytes("moving_piston").len() == 13,
        bytes("piston_head").len() == 11,
        bytes("barrier").len() == 7,
        bytes("light").len() == 5,
        bytes("nether_portal").len() == 13,
        bytes("end_portal").len() == 10,
        bytes("end_gateway").len() == 11,
        bytes("anvil").len() == 5,
        bytes("chipped_anvil").len() == 13,
        bytes("damaged_anvil").len() == 13,
        bytes("grindstone").len() == 10,
        bytes("lodestone").len() == 9,
        bytes("_torch").len() == 6,
        bytes("_button").len() == 7,
        bytes("_pressure_plate").len() == 15,
        bytes("_door").len() == 5,
        bytes("redstone_wire").len() == 13,
        bytes("lever").len() == 5,
        bytes("repeater").len() == 8,
        bytes("comparator").len() == 10,
        bytes("tripwire").len() == 8,
        bytes("tripwire_hook").len() == 13,
        bytes("structure_void").len() == 14,
        bytes("decorated_pot").len() == 13,
        bytes("reinforced_deepslate")[2] == 'i' as u8,
        bytes("_glazed_terracotta")[0] == '_' as u8,
        bytes("bedrock")[1] == 'e' as u8,
        bytes("_torch")[0] == '_' as u8,
        bytes("obsidian")[2] == 's' as u8,
        bytes("crying_obsidian")[9] == 's' as u8,
        bytes("respawn_anchor")[8] == 'a' as u8,
        bytes("reinforced_deepslate")[14] == 'p' as u8,
        bytes("end_portal_frame")[11] == 'f' as u8,
        bytes("_torch")[1] == 't' as u8,
        bytes("moving_piston")[7] == 'p' as u8,
        bytes("piston_head")[5] == 'n' as u8,
        bytes("barrier")[1] == 'a' as u8,
        bytes("nether_portal")[7] == 'p' as u8,
        bytes("end_portal")[4] == 'p' as u8,
        bytes("end_gateway")[5] == 'a' as u8,
        bytes("chipped_anvil")[8] == 'a' as u8,
        bytes("damaged_anvil")[8] == 'a' as u8,
        bytes("grindstone")[4] == 'd' as u8,
        bytes("lodestone")[3] == 'e' as u8,
        bytes("bedrock")[0] == 'b' as u8,
        bytes("_button")[0] == '_' as u8,
        bytes("obsidian")[1] == 'b' as u8,
        bytes("crying_obsidian")[8] == 'b' as u8,
        bytes("_button")[1] == 'b' as u8,
        bytes("reinforced_deepslate")[13] == 'e' as u8,
        bytes("end_portal_frame")[9] == 'l' as u8,
        bytes("piston_head")[4] == 'o' as u8,
        bytes("barrier")[0] == 'b' as u8,
        bytes("end_gateway")[4] == 'g' as u8,
        bytes("chipped_anvil")[6] == 'd' as u8,
        bytes("damaged_anvil")[6] == 'd' as u8,
        bytes("grindstone")[3] == 'n' as u8,
        bytes("lodestone")[2] == 'd' as u8,
        bytes("crying_obsidian")[0] == 'c' as u8,
        bytes("_pressure_plate")[0] == '_' as u8,
        bytes("reinforced_deepslate")[5] == 'o' as u8,
        bytes("end_portal_frame")[1] == 'n' as u8,
        bytes("bedrock")[2] == 'd' as u8,
        bytes("_door")[0] == '_' as u8,
        bytes("obsidian")[3] == 'i' as u8,
        bytes("crying_obsidian")[10] == 'i' as u8,
        bytes("respawn_anchor")[9] == 'n' as u8,
        bytes("reinforced_deepslate")[15] == 's' as u8,
        bytes("moving_piston")[8] == 'i' as u8,
        bytes("piston_head")[7] == 'h' as u8,
        bytes("_door")[1] == 'd' as u8,
        bytes("barrier")[2] == 'r' as u8,
        bytes("light")[0] == 'l' as u8,
        bytes("nether_portal")[8] == 'o' as u8,
        bytes("end_portal")[5] == 'o' as u8,
        bytes("end_gateway")[6] == 't' as u8,
        bytes("anvil")[0] == 'a' as u8,
        bytes("grindstone")[5] == 's' as u8,
        bytes("lodestone")[4] == 's' as u8,
        bytes("redstone_wire")[0] == 'r' as u8,
        bytes("moving_piston")[0] == 'm' as u8,
        bytes("nether_portal")[0] == 'n' as u8,
        bytes("chipped_anvil")[0] == 'c' as u8,
        bytes("damaged_anvil")[0] == 'd' as u8,
        bytes("lever")[1] == 'e' as u8,
        bytes("light")[1] == 'i' as u8,
        bytes("lever")[0] == 'l' as u8,
        bytes("repeater")[0] == 'r' as u8,
        bytes("obsidian")[0] == 'o' as u8,
        bytes("comparator")[0] == 'c' as u8,
        bytes("end_portal")[0] == 'e' as u8,
        bytes("grindstone")[0] == 'g' as u8,
        bytes("tripwire")[0] == 't' as u8,
        bytes("tripwire_hook")[0] == 't' as u8,
        bytes("structure_void")[0] == 's' as u8,
        bytes("respawn_anchor")[0] == 'r' as u8,
        bytes("decorated_pot")[0] == 'd' as u8,
        bytes("decorated_pot")[1] == 'e' as u8,
        bytes("damaged_anvil")[1] == 'a' as u8,
        bytes("_torch")[5] == 'h' as u8,
        bytes("_button")[6] == 'n' as u8,
        bytes("_pressure_plate")[14] == 'e' as u8,
        bytes("_door")[4] == 'r' as u8,
        bytes("_glazed_terracotta")[17] == 'a' as u8,
{
    reveal_strlit("_glazed_terracotta");
    lemma_ascii_bytes("_glazed_terracotta");
    reveal_strlit("bedrock");
    lemma_ascii_bytes("bedrock");
    reveal_strlit("obsidian");
    lemma_ascii_bytes("obsidian");
    reveal_strlit("crying_obsidian");
    lemma_ascii_bytes("crying_obsidian");
    reveal_strlit("respawn_anchor");
    lemma_ascii_bytes("respawn_anchor");
    reveal_strlit("reinforced_deepslate");
    lemma_ascii_bytes("reinforced_deepslate");
    reveal_strlit("end_portal_frame");
    lemma_ascii_bytes("end_portal_frame");
    reveal_strlit("moving_piston");
    lemma_ascii_bytes("moving_piston");
    reveal_strlit("piston_head");
    lemma_ascii_bytes("piston_head");
    reveal_strlit("barrier");
    lemma_ascii_bytes("barrier");
    reveal_strlit("light");
    lemma_ascii_bytes("light");
    reveal_strlit("nether_portal");
    lemma_ascii_bytes("nether_portal");
    reveal_strlit("end_portal");
    lemma_ascii_bytes("end_portal");
    reveal_strlit("end_gateway");
    lemma_ascii_bytes("end_gateway");
    reveal_strlit("anvil");
    lemma_ascii_bytes("anvil");
    reveal_strlit("chipped_anvil");
    lemma_ascii_bytes("chipped_anvil");
    reveal_strlit("damaged_anvil");
    lemma_ascii_bytes("damaged_anvil");
    reveal_strlit("grindstone");
    lemma_ascii_bytes("grindstone");
    reveal_strlit("lodestone");
    lemma_ascii_bytes("lodestone");
    reveal_strlit("_torch");
    lemma_ascii_bytes("_torch");
    reveal_strlit("_button");
    lemma_ascii_bytes("_button");
    reveal_strlit("_pressure_plate");
    lemma_ascii_bytes("_pressure_plate");
    reveal_strlit("_door");
    lemma_ascii_bytes("_door");
    reveal_strlit("redstone_wire");
    lemma_ascii_bytes("redstone_wire");
    reveal_strlit("lever");
    lemma_ascii_bytes("lever");
    reveal_strlit("repeater");
    lemma_ascii_bytes("repeater");
    reveal_strlit("comparator");
    lemma_ascii_bytes("comparator");
    reveal_strlit("tripwire");
    lemma_ascii_bytes("tripwire");
    reveal_strlit("tripwire_hook");
    lemma_ascii_bytes("tripwire_hook");
    reveal_strlit("structure_void");
    lemma_ascii_bytes("structure_void");
    reveal_strlit("decorated_pot");
    lemma_ascii_bytes("decorated_pot");
}


/// No immovable block has a path ending in `_glazed_terracotta`.
proof fn lemma_glazed_terracotta_not_immovable(p: Seq<u8>)
    requires
        ends_with(p, bytes("_glazed_terracotta")),
    ensures
        !immovable(p),
{
    lemma_push_literals();
    lemma_differ_at(bytes("reinforced_deepslate").subrange(2, 20), bytes("_glazed_terracotta"), 0);
}

/// No immovable block has a path ending in `_torch`.
proof fn lemma_torch_not_immovable(p: Seq<u8>)
    requires
        ends_with(p, bytes("_torch")),
    ensures
        !immovable(p),
{
    lemma_push_literals();
    lemma_differ_at(bytes("bedrock").subrange(1, 7), bytes("_torch"), 0);
    lemma_differ_at(bytes("obsidian").subrange(2, 8), bytes("_torch"), 0);
    lemma_differ_at(bytes("crying_obsidian").subrange(9, 15), bytes("_torch"), 0);
    lemma_differ_at(bytes("respawn_anchor").subrange(8, 14), bytes("_torch"), 0);
    lemma_differ_at(bytes("reinforced_deepslate").subrange(14, 20), bytes("_torch"), 0);
    lemma_differ_at(bytes("end_portal_frame").subrange(10, 16), bytes("_torch"), 1);
    lemma_differ_at(bytes("moving_piston").subrange(7, 13), bytes("_torch"), 0);
    lemma_differ_at(bytes("piston_head").subrange(5, 11), bytes("_torch"), 0);
    lemma_differ_at(bytes("barrier").subrange(1, 7), bytes("_torch"), 0);
    lemma_differ_at(bytes("nether_portal").subrange(7, 13), bytes("_torch"), 0);
    lemma_differ_at(bytes("end_portal").subrange(4, 10), bytes("_torch"), 0);
    lemma_differ_at(bytes("end_gateway").subrange(5, 11), bytes("_torch"), 0);
    lemma_differ_at(bytes("chipped_anvil").subrange(7, 13), bytes("_torch"), 1);
    lemma_differ_at(bytes("damaged_anvil").subrange(7, 13), bytes("_torch"), 1);
    lemma_differ_at(bytes("grindstone").subrange(4, 10), bytes("_torch"), 0);
    lemma_differ_at(bytes("lodestone").subrange(3, 9), bytes("_torch"), 0);
}

/// No immovable block has a path ending in `_button`.
proof fn lemma_button_not_immovable(p: Seq<u8>)
    requires
        ends_with(p, bytes("_button")),
    ensures
        !immovable(p),
{
    lemma_push_literals();
    lemma_differ_at(bytes("bedrock").subrange(0, 7), bytes("_button"), 0);
    lemma_differ_at(bytes("obsidian").subrange(1, 8), bytes("_button"), 0);
    lemma_differ_at(bytes("crying_obsidian").subrange(8, 15), bytes("_button"), 0);
    lemma_differ_at(bytes("respawn_anchor").subrange(7, 14), bytes("_button"), 1);
    lemma_differ_at(bytes("reinforced_deepslate").subrange(13, 20), bytes("_button"), 0);
    lemma_differ_at(bytes("end_portal_frame").subrange(9, 16), bytes("_button"), 0);
    lemma_differ_at(bytes("moving_piston").subrange(6, 13), bytes("_button"), 1);
    lemma_differ_at(bytes("piston_head").subrange(4, 11), bytes("_button"), 0);
    lemma_differ_at(bytes("barrier").subrange(0, 7), bytes("_button"), 0);
    lemma_differ_at(bytes("nether_portal").subrange(6, 13), bytes("_button"), 1);
    lemma_differ_at(bytes("end_portal").subrange(3, 10), bytes("_button"), 1);
    lemma_differ_at(bytes("end_gateway").subrange(4, 11), bytes("_button"), 0);
    lemma_differ_at(bytes("chipped_anvil").subrange(6, 13), bytes("_button"), 0);
    lemma_differ_at(bytes("damaged_anvil").subrange(6, 13), bytes("_button"), 0);
    lemma_differ_at(bytes("grindstone").subrange(3, 10), bytes("_button"), 0);
    lemma_differ_at(bytes("lodestone").subrange(2, 9), bytes("_button"), 0);
}

/// No immovable block has a path ending in `_pressure_plate`.
proof fn lemma_pressure_plate_not_immovable(p: Seq<u8>)
    requires
        ends_with(p, bytes("_pressure_plate")),
    ensures
        !immovable(p),
{
    lemma_push_literals();
    lemma_differ_at(bytes("crying_obsidian").subrange(0, 15), bytes("_pressure_plate"), 0);
    lemma_differ_at(bytes("reinforced_deepslate").subrange(5, 20), bytes("_pressure_plate"), 0);
    lemma_differ_at(bytes("end_portal_frame").subrange(1, 16), bytes("_pressure_plate"), 0);
}

/// No immovable block has a path ending in `_door`.
proof fn lemma_door_not_immovable(p: Seq<u8>)
    requires
        ends_with(p, bytes("_door")),
    ensures
        !immovable(p),
{
    lemma_push_literals();
    lemma_differ_at(bytes("bedrock").subrange(2, 7), bytes("_door"), 0);
    lemma_differ_at(bytes("obsidian").subrange(3, 8), bytes("_door"), 0);
    lemma_differ_at(bytes("crying_obsidian").subrange(10, 15), bytes("_door"), 0);
    lemma_differ_at(bytes("respawn_anchor").subrange(9, 14), bytes("_door"), 0);
    lemma_differ_at(bytes("reinforced_deepslate").subrange(15, 20), bytes("_door"), 0);
    lemma_differ_at(bytes("end_portal_frame").subrange(11, 16), bytes("_door"), 0);
    lemma_differ_at(bytes("moving_piston").subrange(8, 13), bytes("_door"), 0);
    lemma_differ_at(bytes("piston_head").subrange(6, 11), bytes("_door"), 1);
    lemma_differ_at(bytes("barrier").subrange(2, 7), bytes("_door"), 0);
    lemma_differ_at(bytes("light").subrange(0, 5), bytes("_door"), 0);
    lemma_differ_at(bytes("nether_portal").subrange(8, 13), bytes("_door"), 0);
    lemma_differ_at(bytes("end_portal").subrange(5, 10), bytes("_door"), 0);
    lemma_differ_at(bytes("end_gateway").subrange(6, 11), bytes("_door"), 0);
    lemma_differ_at(bytes("anvil").subrange(0, 5), bytes("_door"), 0);
    lemma_differ_at(bytes("chipped_anvil").subrange(8, 13), bytes("_door"), 0);
    lemma_differ_at(bytes("damaged_anvil").subrange(8, 13), bytes("_door"), 0);
    lemma_differ_at(bytes("grindstone").subrange(5, 10), bytes("_door"), 0);
    lemma_differ_at(bytes("lodestone").subrange(4, 9), bytes("_door"), 0);
}

/// How pistons treat the block families: an extended piston blocks any
/// push; glazed terracotta can only be pushed; torches, redstone wire,
/// buttons, pressure plates, doors (not trapdoors), levers, repeaters,
/// comparators, tripwire and its hooks, structure voids and decorated pots
/// break.
pub proof fn law_push_reaction_families(p: Seq<u8>)
    ensures
        spec_piston_push_reaction(p, true) == PushReaction::Block,
        ends_with(p, bytes("_glazed_terracotta")) ==> spec_piston_push_reaction(p, false) == PushReaction::PushOnly,
        ends_with(p, bytes("_torch")) || ends_with(p, bytes("_button")) || ends_with(p, bytes("_pressure_plate")) || (ends_with(p, bytes("_door")) && !ends_with(p, bytes("_trapdoor"))) || p == bytes("redstone_wire") || p == bytes("lever") || p == bytes("repeater") || p == bytes("comparator") || p == bytes("tripwire") || p == bytes("tripwire_hook") || p == bytes("structure_void") || p == bytes("decorated_pot") ==> spec_piston_push_reaction(p, false) == PushReaction::Destroy,
{
    lemma_push_literals();
    if ends_with(p, bytes("_glazed_terracotta")) {
        lemma_glazed_terracotta_not_immovable(p);
    }
    if ends_with(p, bytes("_torch")) {
        lemma_torch_not_immovable(p);
        lemma_suffixes_clash(p, bytes("_torch"), bytes("_glazed_terracotta"), 0);
    }
    if ends_with(p, bytes("_button")) {
        lemma_button_not_immovable(p);
        lemma_suffixes_clash(p, bytes("_button"), bytes("_glazed_terracotta"), 0);
    }
    if ends_with(p, bytes("_pressure_plate")) {
        lemma_pressure_plate_not_immovable(p);
        lemma_suffixes_clash(p, bytes("_pressure_plate"), bytes("_glazed_terracotta"), 0);
    }
    if ends_with(p, bytes("_door")) {
        lemma_door_not_immovable(p);
        lemma_suffixes_clash(p, bytes("_door"), bytes("_glazed_terracotta"), 0);
    }
    lemma_differ_at(bytes("redstone_wire"), bytes("moving_piston"), 0);
    lemma_differ_at(bytes("redstone_wire"), bytes("nether_portal"), 0);
    lemma_differ_at(bytes("redstone_wire"), bytes("chipped_anvil"), 0);
    lemma_differ_at(bytes("redstone_wire"), bytes("damaged_anvil"), 0);
    lemma_differ_at(bytes("lever"), bytes("light"), 1);
    lemma_differ_at(bytes("lever"), bytes("anvil"), 0);
    lemma_differ_at(bytes("repeater"), bytes("obsidian"), 0);
    lemma_differ_at(bytes("comparator"), bytes("end_portal"), 0);
    lemma_differ_at(bytes("comparator"), bytes("grindstone"), 0);
    lemma_differ_at(bytes("tripwire"), bytes("obsidian"), 0);
    lemma_differ_at(bytes("tripwire_hook"), bytes("moving_piston"), 0);
    lemma_differ_at(bytes("tripwire_hook"), bytes("nether_portal"), 0);
    lemma_differ_at(bytes("tripwire_hook"), bytes("chipped_anvil"), 0);
    lemma_differ_at(bytes("tripwire_hook"), bytes("damaged_anvil"), 0);
    lemma_differ_at(bytes("structure_void"), bytes("respawn_anchor"), 0);
    lemma_differ_at(bytes("decorated_pot"), bytes("moving_piston"), 0);
    lemma_differ_at(bytes("decorated_pot"), bytes("nether_portal"), 0);
    lemma_differ_at(bytes("decorated_pot"), bytes("chipped_anvil"), 0);
    lemma_differ_at(bytes("decorated_pot"), bytes("damaged_anvil"), 1);
}

} // verus!
