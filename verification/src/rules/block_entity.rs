//! What comparators read from block entities and entities once their fields
//! are known: item stacks, lectern books, jukebox discs and item frames.

use vstd::prelude::*;

use crate::position::{spec_clockwise, spec_counter_clockwise, spec_opposite, Direction};
use crate::rules::comparator::{song_output, spec_jukebox_song_output};
use crate::text::{bytes, bytes_start_with, bytes_strip_prefix, name_is, starts_with, strip_prefix};

verus! {

/// `value` clamped into `low..=high`.
pub open spec fn clamp_int(value: int, low: int, high: int) -> int {
    if value < low {
        low
    } else if value > high {
        high
    } else {
        value
    }
}

/// The signal of an item stack holding `count` items, none counting as 0,
/// with a stack limit of `max_stack_size`, 64 when unknown, clamped to
/// 1..=99: 0 for an empty stack, else 1 plus 14 steps over the limit.
pub open spec fn spec_item_stack_signal(count: Option<i64>, max_stack_size: Option<i64>) -> int {
    let count = match count {
        Some(c) => c as int,
        None => 0,
    };
    if count <= 0 {
        0
    } else {
        let limit = clamp_int(
            match max_stack_size {
                Some(m) => m as int,
                None => 64,
            },
            1,
            99,
        );
        clamp_int(1 + clamp_int(count, 1, limit) * 14 / limit, 1, 15)
    }
}

fn clamp_i64(value: i64, low: i64, high: i64) -> (result: i64)
    requires
        low <= high,
    ensures
        result == clamp_int(value as int, low as int, high as int),
{
    if value < low {
        low
    } else if value > high {
        high
    } else {
        value
    }
}

/// The signal of an item stack holding `count` items with stack limit
/// `max_stack_size`.
pub fn item_stack_signal(count: Option<i64>, max_stack_size: Option<i64>) -> (signal: i32)
    ensures
        signal == spec_item_stack_signal(count, max_stack_size),
{
    let count = match count {
        Some(c) => c,
        None => 0,
    };
    if count <= 0 {
        return 0;
    }
    let limit = clamp_i64(
        match max_stack_size {
            Some(m) => m,
            None => 64,
        },
        1,
        99,
    );
    let held = clamp_i64(count, 1, limit);
    assert(held * 14 <= 99 * 14) by (nonlinear_arith)
        requires
            1 <= held <= 99,
    ;
    let product = held * 14;
    let steps = product / limit;
    assert(steps <= product) by (nonlinear_arith)
        requires
            steps as int == product as int / limit as int,
            limit >= 1,
            product >= 0,
    ;
    clamp_i64(1 + steps, 1, 15) as i32
}

/// A lectern's book page count, none counting as 0 and below 0 as 0.
pub open spec fn page_total(page_count: Option<i64>) -> int {
    match page_count {
        Some(c) => if c < 0 {
            0
        } else {
            c as int
        },
        None => 0,
    }
}

/// The page a lectern shows, clamped to the book.
pub open spec fn shown_page(page_count: Option<i64>, page: Option<i64>) -> int {
    clamp_int(
        match page {
            Some(p) => p as int,
            None => 0,
        },
        0,
        page_total(page_count) - 1,
    )
}

/// What a lectern gives: 0 without a book, 15 for a book of at most one
/// page, else 1 plus 14 steps over the pages, by the page it shows.
pub open spec fn spec_lectern_output(has_book: bool, page_count: Option<i64>, page: Option<i64>) -> int {
    if !has_book {
        0
    } else if page_total(page_count) <= 1 {
        15
    } else {
        clamp_int(shown_page(page_count, page) * 14 / (page_total(page_count) - 1) + 1, 1, 15)
    }
}

/// What a lectern gives, from whether it holds a book, the book's page
/// count and the page it shows; the shown page times 14 must fit an `i64`.
pub fn lectern_output(has_book: bool, page_count: Option<i64>, page: Option<i64>) -> (output: i32)
    requires
        has_book && page_total(page_count) > 1 ==> shown_page(page_count, page) * 14 <= i64::MAX,
    ensures
        output == spec_lectern_output(has_book, page_count, page),
{
    if !has_book {
        return 0;
    }
    let total = match page_count {
        Some(c) => if c < 0 {
            0
        } else {
            c
        },
        None => 0,
    };
    if total <= 1 {
        return 15;
    }
    let shown = clamp_i64(
        match page {
            Some(p) => p,
            None => 0,
        },
        0,
        total - 1,
    );
    let product = shown * 14;
    let span = total - 1;
    let steps = product / span;
    assert(steps <= product) by (nonlinear_arith)
        requires
            steps as int == product as int / span as int,
            span >= 1,
            product >= 0,
    ;
    clamp_i64(steps + 1, 1, 15) as i32
}

/// The song a jukebox plays: its disc's playable component without a
/// leading `minecraft:`, else the disc's item id after
/// `minecraft:music_disc_`.
pub open spec fn spec_jukebox_song(component: Option<Seq<u8>>, item_id: Option<Seq<u8>>) -> Option<Seq<u8>> {
    match component {
        Some(song) => Some(strip_prefix(song, bytes("minecraft:"))),
        None => match item_id {
            Some(id) => if starts_with(id, bytes("minecraft:music_disc_")) {
                Some(strip_prefix(id, bytes("minecraft:music_disc_")))
            } else {
                None
            },
            None => None,
        },
    }
}

/// What a jukebox gives: the output of the song it plays, 0 without one.
pub open spec fn spec_jukebox_output(component: Option<Seq<u8>>, item_id: Option<Seq<u8>>) -> int {
    match spec_jukebox_song(component, item_id) {
        Some(song) => spec_jukebox_song_output(song) as int,
        None => 0,
    }
}

/// What a jukebox gives, from its disc's playable component and item id.
pub fn jukebox_output(component: Option<&str>, item_id: Option<&str>) -> (output: i32)
    ensures
        output == spec_jukebox_output(
            match component {
                Some(c) => Some(bytes(c)),
                None => None,
            },
            match item_id {
                Some(i) => Some(bytes(i)),
                None => None,
            },
        ),
{
    match component {
        Some(song) => song_output(bytes_strip_prefix(song.as_bytes(), "minecraft:".as_bytes())),
        None => match item_id {
            Some(id) => {
                let prefix = "minecraft:music_disc_".as_bytes();
                if bytes_start_with(id.as_bytes(), prefix) {
                    song_output(bytes_strip_prefix(id.as_bytes(), prefix))
                } else {
                    0
                }
            },
            None => 0,
        },
    }
}

/// The `facing` field of an entity: a direction name, a number, or
/// something else.
#[derive(Clone, Copy, Debug)]
pub enum FacingField<'a> {
    Name(&'a str),
    Number(Option<i64>),
    Other,
}

/// The direction an entity's `facing` field gives: a direction by name, or
/// by its Java ordinal.
pub open spec fn spec_entity_direction(facing: FacingField) -> Option<Direction> {
    match facing {
        FacingField::Name(name) => {
            let n = bytes(name);
            if n == bytes("west") {
                Some(Direction::West)
            } else if n == bytes("east") {
                Some(Direction::East)
            } else if n == bytes("down") {
                Some(Direction::Down)
            } else if n == bytes("up") {
                Some(Direction::Up)
            } else if n == bytes("north") {
                Some(Direction::North)
            } else if n == bytes("south") {
                Some(Direction::South)
            } else {
                None
            }
        },
        FacingField::Number(Some(value)) => if value == 0 {
            Some(Direction::Down)
        } else if value == 1 {
            Some(Direction::Up)
        } else if value == 2 {
            Some(Direction::North)
        } else if value == 3 {
            Some(Direction::South)
        } else if value == 4 {
            Some(Direction::West)
        } else if value == 5 {
            Some(Direction::East)
        } else {
            None
        },
        _ => None,
    }
}

/// The direction an entity's `facing` field gives.
pub fn entity_direction(facing: FacingField) -> (direction: Option<Direction>)
    ensures
        direction == spec_entity_direction(facing),
{
    match facing {
        FacingField::Name(name) => {
            let n = name.as_bytes();
            if name_is(n, "west") {
                Some(Direction::West)
            } else if name_is(n, "east") {
                Some(Direction::East)
            } else if name_is(n, "down") {
                Some(Direction::Down)
            } else if name_is(n, "up") {
                Some(Direction::Up)
            } else if name_is(n, "north") {
                Some(Direction::North)
            } else if name_is(n, "south") {
                Some(Direction::South)
            } else {
                None
            }
        },
        FacingField::Number(Some(value)) => if value == 0 {
            Some(Direction::Down)
        } else if value == 1 {
            Some(Direction::Up)
        } else if value == 2 {
            Some(Direction::North)
        } else if value == 3 {
            Some(Direction::South)
        } else if value == 4 {
            Some(Direction::West)
        } else if value == 5 {
            Some(Direction::East)
        } else {
            None
        },
        _ => None,
    }
}

/// What an item frame gives a comparator behind it: nothing unless exactly
/// one frame faces that way, 0 for an empty frame, else its rotation modulo
/// 8, plus 1.
pub open spec fn spec_item_frame_output(
    frames: usize,
    item_count: Option<i64>,
    has_item_id: bool,
    rotation: Option<i64>,
) -> Option<u8> {
    if frames != 1 {
        None
    } else if !((match item_count {
        Some(c) => c > 0,
        None => false,
    }) || has_item_id) {
        Some(0u8)
    } else {
        Some(
            ((match rotation {
                Some(r) => r as int,
                None => 0,
            }) % 8 + 1) as u8,
        )
    }
}

/// What an item frame gives a comparator, from how many frames face it and
/// the one frame's item count, item id and rotation.
pub fn item_frame_output(frames: usize, item_count: Option<i64>, has_item_id: bool, rotation: Option<i64>) -> (output: Option<u8>)
    ensures
        output == spec_item_frame_output(frames, item_count, has_item_id, rotation),
{
    if frames != 1 {
        return None;
    }
    let counted = match item_count {
        Some(c) => c > 0,
        None => false,
    };
    if !(counted || has_item_id) {
        return Some(0);
    }
    let rotation = match rotation {
        Some(r) => r,
        None => 0,
    };
    let turn = rotation % 8;
    let turn = if turn < 0 {
        turn + 8
    } else {
        turn
    };
    Some(turn as u8 + 1)
}

/// What a shelf gives a comparator reading it from `direction`: nothing
/// unless the shelf faces away from the comparator, else one bit for each of
/// its three slots that holds an item.
pub open spec fn spec_shelf_output(facing: Option<Direction>, direction: Direction, slots: Seq<u64>) -> int {
    if facing != Some(spec_opposite(direction)) {
        0
    } else {
        (if slots.contains(0u64) { 1int } else { 0int }) + (if slots.contains(1u64) { 2int } else { 0int }) + (
        if slots.contains(2u64) {
            4int
        } else {
            0int
        })
    }
}

/// What a shelf facing `facing` gives a comparator reading it from
/// `direction`, with items in `slots`.
pub fn shelf_output(facing: Option<Direction>, direction: Direction, slots: &[u64]) -> (output: i32)
    ensures
        output == spec_shelf_output(facing, direction, slots@),
{
    let faces_away = match facing {
        Some(f) => f.opposite() == direction,
        None => false,
    };
    proof {
        if let Some(f) = facing {
            assert(faces_away == (spec_opposite(f) == direction));
            assert((spec_opposite(f) == direction) == (f == spec_opposite(direction))) by {
                match f {
                    Direction::Down => {},
                    Direction::Up => {},
                    Direction::North => {},
                    Direction::South => {},
                    Direction::West => {},
                    Direction::East => {},
                }
            }
        }
    }
    if !faces_away {
        return 0;
    }
    let mut held = [false, false, false];
    let mut k: usize = 0;
    while k < slots.len()
        invariant
            k <= slots@.len(),
            held[0] == slots@.take(k as int).contains(0u64),
            held[1] == slots@.take(k as int).contains(1u64),
            held[2] == slots@.take(k as int).contains(2u64),
        decreases slots@.len() - k,
    {
        let slot = slots[k];
        proof {
            assert(slots@.take(k + 1) =~= slots@.take(k as int).push(slot));
            assert forall|v: u64| slots@.take(k + 1).contains(v) == (slots@.take(k as int).contains(v) || v == slot) by {
                let next = slots@.take(k + 1);
                if next.contains(v) {
                    let j = choose|j: int| 0 <= j < next.len() && next[j] == v;
                    if j < k {
                        assert(slots@.take(k as int)[j] == v);
                    }
                }
                if slots@.take(k as int).contains(v) {
                    let j = choose|j: int| 0 <= j < k && slots@.take(k as int)[j] == v;
                    assert(next[j] == v);
                }
                if v == slot {
                    assert(next[k as int] == v);
                }
            }
        }
        if slot < 3 {
            let index = slot as usize;
            held[index] = true;
        }
        k += 1;
    }
    proof {
        assert(slots@.take(slots@.len() as int) =~= slots@);
    }
    (if held[0] { 1i32 } else { 0i32 }) + (if held[1] { 2i32 } else { 0i32 }) + (if held[2] { 4i32 } else { 0i32 })
}

/// The direction of the other half of a double chest: clockwise of its
/// facing for a left half, counter-clockwise for a right half.
pub open spec fn spec_chest_partner_direction(facing: Option<Direction>, chest_type: Option<Seq<u8>>) -> Option<Direction> {
    match (facing, chest_type) {
        (Some(f), Some(t)) => if t == bytes("left") {
            Some(spec_clockwise(f))
        } else if t == bytes("right") {
            Some(spec_counter_clockwise(f))
        } else {
            None
        },
        _ => None,
    }
}

/// The direction of the other half of a double chest.
pub fn chest_partner_direction(facing: Option<Direction>, chest_type: Option<&str>) -> (direction: Option<Direction>)
    ensures
        direction == spec_chest_partner_direction(
            facing,
            match chest_type {
                Some(t) => Some(bytes(t)),
                None => None,
            },
        ),
{
    let f = match facing {
        Some(f) => f,
        None => {
            return None;
        },
    };
    let t = match chest_type {
        Some(t) => t.as_bytes(),
        None => {
            return None;
        },
    };
    if name_is(t, "left") {
        Some(f.clockwise())
    } else if name_is(t, "right") {
        Some(f.counter_clockwise())
    } else {
        None
    }
}

} // verus!
