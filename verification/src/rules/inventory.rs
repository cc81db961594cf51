//! Containers, dispensers and hoppers: slot counts, the items that stand
//! apart, what a dispenser does with an item, and insertion outcomes.

use vstd::prelude::*;

use crate::text::{bytes, ends_with, name_ends, name_is};

verus! {

/// The slot count of a container block entity kind, if it has a default.
pub open spec fn spec_default_container_slot_count(kind: Seq<u8>) -> Option<u32> {
    if kind == bytes("minecraft:hopper") || kind == bytes("minecraft:hopper_minecart") || kind == bytes("minecraft:brewing_stand") {
        Some(5u32)
    } else if kind == bytes("minecraft:dispenser") || kind == bytes("minecraft:dropper") || kind == bytes("minecraft:crafter") {
        Some(9u32)
    } else if kind == bytes("minecraft:furnace") || kind == bytes("minecraft:blast_furnace") || kind == bytes("minecraft:smoker") {
        Some(3u32)
    } else if kind == bytes("minecraft:chest") || kind == bytes("minecraft:trapped_chest") || kind == bytes("minecraft:barrel") || kind == bytes("minecraft:chest_minecart") {
        Some(27u32)
    } else if ends_with(kind, bytes("_shulker_box")) || kind == bytes("minecraft:shulker_box") {
        Some(27u32)
    } else {
        None
    }
}

/// The slot count of a container block entity kind, if it has a default:
/// five for hoppers and brewing stands, nine for dispensers, droppers and
/// crafters, three for furnaces, 27 for chests, barrels and shulker boxes.
pub fn default_container_slot_count(kind: &str) -> (count: Option<u32>)
    ensures
        count == spec_default_container_slot_count(bytes(kind)),
{
    let kind = kind.as_bytes();
    if name_is(kind, "minecraft:hopper") || name_is(kind, "minecraft:hopper_minecart") || name_is(kind, "minecraft:brewing_stand") {
        Some(5u32)
    } else if name_is(kind, "minecraft:dispenser") || name_is(kind, "minecraft:dropper") || name_is(kind, "minecraft:crafter") {
        Some(9u32)
    } else if name_is(kind, "minecraft:furnace") || name_is(kind, "minecraft:blast_furnace") || name_is(kind, "minecraft:smoker") {
        Some(3u32)
    } else if name_is(kind, "minecraft:chest") || name_is(kind, "minecraft:trapped_chest") || name_is(kind, "minecraft:barrel") || name_is(kind, "minecraft:chest_minecart") {
        Some(27u32)
    } else if name_ends(kind, "_shulker_box") || name_is(kind, "minecraft:shulker_box") {
        Some(27u32)
    } else {
        None
    }
}

/// The slot count a hopper sees in a container kind, if it knows one.
pub open spec fn spec_default_slots(kind: Seq<u8>) -> Option<u32> {
    if kind == bytes("minecraft:hopper") || kind == bytes("minecraft:hopper_minecart") || kind == bytes("minecraft:brewing_stand") {
        Some(5u32)
    } else if kind == bytes("minecraft:dispenser") || kind == bytes("minecraft:dropper") || kind == bytes("minecraft:crafter") {
        Some(9u32)
    } else if kind == bytes("minecraft:furnace") || kind == bytes("minecraft:blast_furnace") || kind == bytes("minecraft:smoker") {
        Some(3u32)
    } else if kind == bytes("minecraft:chest") || kind == bytes("minecraft:trapped_chest") || kind == bytes("minecraft:barrel") || kind == bytes("minecraft:chest_minecart") || kind == bytes("minecraft:chest_boat") || kind == bytes("minecraft:chest_raft") {
        Some(27u32)
    } else if kind == bytes("minecraft:jukebox") || kind == bytes("minecraft:decorated_pot") {
        Some(1u32)
    } else if kind == bytes("minecraft:chiseled_bookshelf") {
        Some(6u32)
    } else if ends_with(kind, bytes("_shulker_box")) || kind == bytes("minecraft:shulker_box") {
        Some(27u32)
    } else {
        None
    }
}

/// The slot count a hopper sees in a container kind, if it knows one: the
/// container defaults, chest boats and rafts with 27, jukeboxes and pots
/// with one, chiseled bookshelves with six.
pub fn default_slots(kind: &str) -> (count: Option<u32>)
    ensures
        count == spec_default_slots(bytes(kind)),
{
    let kind = kind.as_bytes();
    if name_is(kind, "minecraft:hopper") || name_is(kind, "minecraft:hopper_minecart") || name_is(kind, "minecraft:brewing_stand") {
        Some(5u32)
    } else if name_is(kind, "minecraft:dispenser") || name_is(kind, "minecraft:dropper") || name_is(kind, "minecraft:crafter") {
        Some(9u32)
    } else if name_is(kind, "minecraft:furnace") || name_is(kind, "minecraft:blast_furnace") || name_is(kind, "minecraft:smoker") {
        Some(3u32)
    } else if name_is(kind, "minecraft:chest") || name_is(kind, "minecraft:trapped_chest") || name_is(kind, "minecraft:barrel") || name_is(kind, "minecraft:chest_minecart") || name_is(kind, "minecraft:chest_boat") || name_is(kind, "minecraft:chest_raft") {
        Some(27u32)
    } else if name_is(kind, "minecraft:jukebox") || name_is(kind, "minecraft:decorated_pot") {
        Some(1u32)
    } else if name_is(kind, "minecraft:chiseled_bookshelf") {
        Some(6u32)
    } else if name_ends(kind, "_shulker_box") || name_is(kind, "minecraft:shulker_box") {
        Some(27u32)
    } else {
        None
    }
}

/// Whether an item goes in a brewing stand's bottle slots: potions and glass bottles.
pub open spec fn brewing_bottle(item_id: Seq<u8>) -> bool {
    item_id == bytes("minecraft:potion")
        || item_id == bytes("minecraft:splash_potion")
        || item_id == bytes("minecraft:lingering_potion")
        || item_id == bytes("minecraft:glass_bottle")
}

/// Whether an item goes in a brewing stand's bottle slots: potions and glass bottles.
pub fn is_brewing_bottle(item_id: &str) -> (result: bool)
    ensures
        result == brewing_bottle(bytes(item_id)),
{
    let item_id = item_id.as_bytes();
    name_is(item_id, "minecraft:potion")
        || name_is(item_id, "minecraft:splash_potion")
        || name_is(item_id, "minecraft:lingering_potion")
        || name_is(item_id, "minecraft:glass_bottle")
}

/// Whether a container kind is a shulker box.
pub open spec fn spec_is_shulker_box(kind: Seq<u8>) -> bool {
    kind == bytes("minecraft:shulker_box") || ends_with(kind, bytes("_shulker_box"))
}

/// Whether a container kind is a shulker box.
pub fn is_shulker_box_container(kind: &str) -> (result: bool)
    ensures
        result == spec_is_shulker_box(bytes(kind)),
{
    name_is(kind.as_bytes(), "minecraft:shulker_box") || name_ends(kind.as_bytes(), "_shulker_box")
}

/// Whether an item is a shulker box, which no shulker box accepts.
pub fn is_shulker_box_item(item_id: &str) -> (result: bool)
    ensures
        result == spec_is_shulker_box(bytes(item_id)),
{
    name_is(item_id.as_bytes(), "minecraft:shulker_box") || name_ends(item_id.as_bytes(), "_shulker_box")
}

/// Whether an item fits a chiseled bookshelf.
pub open spec fn bookshelf_book(item_id: Seq<u8>) -> bool {
    item_id == bytes("minecraft:book")
        || item_id == bytes("minecraft:written_book")
        || item_id == bytes("minecraft:enchanted_book")
        || item_id == bytes("minecraft:writable_book")
        || item_id == bytes("minecraft:knowledge_book")
}

/// Whether an item fits a chiseled bookshelf.
pub fn is_bookshelf_book(item_id: &str) -> (result: bool)
    ensures
        result == bookshelf_book(bytes(item_id)),
{
    let item_id = item_id.as_bytes();
    name_is(item_id, "minecraft:book")
        || name_is(item_id, "minecraft:written_book")
        || name_is(item_id, "minecraft:enchanted_book")
        || name_is(item_id, "minecraft:writable_book")
        || name_is(item_id, "minecraft:knowledge_book")
}

/// Whether a dispenser shoots an item as a projectile.
pub open spec fn projectile_item(item: Seq<u8>) -> bool {
    item == bytes("minecraft:arrow")
        || item == bytes("minecraft:tipped_arrow")
        || item == bytes("minecraft:spectral_arrow")
        || item == bytes("minecraft:egg")
        || item == bytes("minecraft:blue_egg")
        || item == bytes("minecraft:brown_egg")
        || item == bytes("minecraft:snowball")
        || item == bytes("minecraft:experience_bottle")
        || item == bytes("minecraft:splash_potion")
        || item == bytes("minecraft:lingering_potion")
        || item == bytes("minecraft:firework_rocket")
        || item == bytes("minecraft:fire_charge")
        || item == bytes("minecraft:wind_charge")
}

fn is_projectile_item(item: &[u8]) -> (result: bool)
    ensures
        result == projectile_item(item@),
{
    name_is(item, "minecraft:arrow")
        || name_is(item, "minecraft:tipped_arrow")
        || name_is(item, "minecraft:spectral_arrow")
        || name_is(item, "minecraft:egg")
        || name_is(item, "minecraft:blue_egg")
        || name_is(item, "minecraft:brown_egg")
        || name_is(item, "minecraft:snowball")
        || name_is(item, "minecraft:experience_bottle")
        || name_is(item, "minecraft:splash_potion")
        || name_is(item, "minecraft:lingering_potion")
        || name_is(item, "minecraft:firework_rocket")
        || name_is(item, "minecraft:fire_charge")
        || name_is(item, "minecraft:wind_charge")
}

/// Whether a dispenser places an item as a minecart.
pub open spec fn minecart_item(item: Seq<u8>) -> bool {
    item == bytes("minecraft:minecart")
        || item == bytes("minecraft:chest_minecart")
        || item == bytes("minecraft:furnace_minecart")
        || item == bytes("minecraft:tnt_minecart")
        || item == bytes("minecraft:hopper_minecart")
        || item == bytes("minecraft:command_block_minecart")
}

fn is_minecart_item(item: &[u8]) -> (result: bool)
    ensures
        result == minecart_item(item@),
{
    name_is(item, "minecraft:minecart")
        || name_is(item, "minecraft:chest_minecart")
        || name_is(item, "minecraft:furnace_minecart")
        || name_is(item, "minecraft:tnt_minecart")
        || name_is(item, "minecraft:hopper_minecart")
        || name_is(item, "minecraft:command_block_minecart")
}

/// What a dispenser does with an item it fires.
#[derive(Clone, Copy, Debug, PartialEq, Eq, Structural)]
pub enum DispenserBehavior {
    Projectile,
    PrimeTnt,
    Minecart,
    DefaultEject,
}

/// What a dispenser does with an item: shoot projectiles, prime TNT, place
/// minecarts, eject boats and rafts; none for other items.
pub open spec fn spec_dispenser_behavior(item: Seq<u8>) -> Option<DispenserBehavior> {
    if projectile_item(item) {
        Some(DispenserBehavior::Projectile)
    } else if item == bytes("minecraft:tnt") {
        Some(DispenserBehavior::PrimeTnt)
    } else if minecart_item(item) {
        Some(DispenserBehavior::Minecart)
    } else if ends_with(item, bytes("_boat")) || ends_with(item, bytes("_raft")) {
        Some(DispenserBehavior::DefaultEject)
    } else {
        None
    }
}

/// What a dispenser does with an item.
pub fn dispenser_behavior(item: &str) -> (behavior: Option<DispenserBehavior>)
    ensures
        behavior == spec_dispenser_behavior(bytes(item)),
{
    let item = item.as_bytes();
    if is_projectile_item(item) {
        Some(DispenserBehavior::Projectile)
    } else if name_is(item, "minecraft:tnt") {
        Some(DispenserBehavior::PrimeTnt)
    } else if is_minecart_item(item) {
        Some(DispenserBehavior::Minecart)
    } else if name_ends(item, "_boat") || name_ends(item, "_raft") {
        Some(DispenserBehavior::DefaultEject)
    } else {
        None
    }
}

/// The entity kind a fired projectile item becomes.
pub open spec fn spec_projectile_entity_kind(item: Seq<u8>) -> Seq<u8> {
    if item == bytes("minecraft:tipped_arrow") || item == bytes("minecraft:spectral_arrow") {
        bytes("minecraft:arrow")
    } else if item == bytes("minecraft:experience_bottle") {
        bytes("minecraft:experience_bottle")
    } else if item == bytes("minecraft:splash_potion") || item == bytes("minecraft:lingering_potion") {
        bytes("minecraft:potion")
    } else {
        item
    }
}

/// The entity kind a fired projectile item becomes: arrows of every kind
/// are arrows, thrown potions are potions, the rest keep their name.
pub fn projectile_entity_kind(item: &str) -> (kind: &str)
    ensures
        bytes(kind) == spec_projectile_entity_kind(bytes(item)),
{
    let b = item.as_bytes();
    if name_is(b, "minecraft:tipped_arrow") || name_is(b, "minecraft:spectral_arrow") {
        "minecraft:arrow"
    } else if name_is(b, "minecraft:experience_bottle") {
        "minecraft:experience_bottle"
    } else if name_is(b, "minecraft:splash_potion") || name_is(b, "minecraft:lingering_potion") {
        "minecraft:potion"
    } else {
        item
    }
}

/// How much of a stack a container took and how much is left.
#[derive(Clone, Copy, Debug, PartialEq, Eq, Structural)]
pub struct InsertionOutcome {
    pub inserted: i64,
    pub remaining: i64,
}

impl InsertionOutcome {
    /// Whether the container took something and left nothing.
    pub fn fully_accepted(self) -> (result: bool)
        ensures
            result == (self.inserted > 0 && self.remaining == 0),
    {
        self.inserted > 0 && self.remaining == 0
    }
}

/// The stack size that a container's capacity counts in.
pub const DEFAULT_STACK_SIZE: i64 = 64;

/// A container's capacity: its `capacity` field, 64 when missing, at least 1.
pub open spec fn spec_capacity(capacity: Option<i64>) -> int {
    let c = match capacity {
        Some(c) => c as int,
        None => DEFAULT_STACK_SIZE as int,
    };
    if c < 1 {
        1
    } else {
        c
    }
}

/// How many slots a container has: its `slot_count` field when it is a
/// positive `u32`, else the default of its kind, else its capacity in
/// whole stacks, rounded up and at least one.
pub open spec fn spec_container_slots(kind: Seq<u8>, slot_count: Option<u64>, capacity: Option<i64>) -> int {
    match slot_count {
        Some(n) if 0 < n <= u32::MAX => n as int,
        _ => match spec_default_container_slot_count(kind) {
            Some(n) => n as int,
            None => {
                let stacks = (spec_capacity(capacity) + DEFAULT_STACK_SIZE - 1) / DEFAULT_STACK_SIZE as int;
                (if stacks < 1 {
                    1
                } else {
                    stacks
                }) as u32 as int
            },
        },
    }
}

/// How many slots a container of kind `kind` has; the capacity plus 64 must
/// fit an `i64`. A stack count beyond `u32` keeps its low 32 bits.
pub fn container_slots(kind: &str, slot_count: Option<u64>, capacity: Option<i64>) -> (slots: u32)
    requires
        spec_capacity(capacity) + DEFAULT_STACK_SIZE <= i64::MAX,
    ensures
        slots == spec_container_slots(bytes(kind), slot_count, capacity),
{
    if let Some(n) = slot_count {
        if 0 < n && n <= 0xffff_ffffu64 {
            return n as u32;
        }
    }
    match default_container_slot_count(kind) {
        Some(n) => n,
        None => {
            let raw = match capacity {
                Some(c) => c,
                None => DEFAULT_STACK_SIZE,
            };
            let capacity = if raw < 1 {
                1
            } else {
                raw
            };
            let stacks = (capacity + DEFAULT_STACK_SIZE - 1) / DEFAULT_STACK_SIZE;
            let stacks = if stacks < 1 {
                1
            } else {
                stacks
            };
            #[verifier::truncate]
            (stacks as u32)
        },
    }
}

} // verus!
