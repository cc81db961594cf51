//! A read-only snapshot of the world as the network build reads it: for
//! each stored block its state, behaviour, properties, facing, whether it
//! conducts redstone, its recorded power and whether it reacts to neighbour
//! updates; a position with no entry holds air. The positions are also kept
//! in ascending order, so that builds number what they find by position.

use vstd::prelude::*;

use crate::compiled::closure::{BlockFlags, WireView};
use crate::compiled::draft_order::sort_keys;
use crate::compiled::passes::positions_ascending;
use crate::position::{pos_lt, spec_horizontal, spec_relative, BlockPos, BlockStateId, Direction};
use crate::posmap::{lemma_pack_injective, PositionMap};
use crate::registry::BlockBehavior;

verus! {

/// What the build reads of one block. `known` is false for a state the
/// registry does not know, whose other fields then mean nothing;
/// `open_count` is the open count a trapped chest records, if any.
pub struct BlockInfo<'a> {
    pub known: bool,
    pub state: BlockStateId,
    pub behavior: BlockBehavior,
    pub properties: Vec<(&'a str, &'a str)>,
    pub facing: Option<Direction>,
    pub conductor: bool,
    pub power: u8,
    pub updates_neighbors: bool,
    pub open_count: Option<i64>,
}

/// The stored blocks of a world by position, with their positions once
/// each in ascending order.
pub struct WorldView<'a> {
    pub blocks: PositionMap<BlockInfo<'a>>,
    pub order: Vec<BlockPos>,
}

impl<'a> WorldView<'a> {
    /// Whether the ordered positions are exactly the stored ones, ascending.
    pub open spec fn valid(&self) -> bool {
        &&& positions_ascending(self.order@)
        &&& forall|p: BlockPos| #[trigger] self.order@.contains(p) <==> self.blocks.has(p)
    }

    /// Whether the block at `pos` is a wire of a known state.
    pub open spec fn wire_at(&self, pos: BlockPos) -> bool {
        self.blocks.has(pos) && self.blocks.at(pos).known && self.blocks.at(pos).behavior == BlockBehavior::Wire
    }

    /// Whether the block at `pos` is of a known state that conducts.
    pub open spec fn conducts(&self, pos: BlockPos) -> bool {
        self.blocks.has(pos) && self.blocks.at(pos).known && self.blocks.at(pos).conductor
    }

    /// What the wire search reads of the block at `pos`.
    pub open spec fn flags_at(&self, pos: BlockPos) -> BlockFlags {
        if self.blocks.has(pos) {
            let info = self.blocks.at(pos);
            BlockFlags {
                known: info.known,
                wire: info.known && info.behavior == BlockBehavior::Wire,
                conductor: info.known && info.conductor,
            }
        } else {
            BlockFlags { known: true, wire: false, conductor: false }
        }
    }
}

impl<'a> WorldView<'a> {
    /// Whether the block above `pos` lets a wire climb: it is of an unknown
    /// state or conducts nothing.
    pub open spec fn open_above(&self, pos: BlockPos) -> bool {
        let above = spec_relative(pos, Direction::Up);
        !(self.flags_at(above).known && self.flags_at(above).conductor)
    }

    /// Whether the wire at `pos` connects to `n` through its horizontal side
    /// `h`: the side block, of a known state, is a wire at `n`; or it
    /// conducts, the block above `pos` lets the wire climb, and `n` is the
    /// wire on top of it; or it conducts nothing and `n` is the wire below it.
    pub open spec fn connects_through(&self, pos: BlockPos, h: int, n: BlockPos) -> bool {
        let side = spec_relative(pos, spec_horizontal(h));
        let flags = self.flags_at(side);
        &&& flags.known
        &&& {
            ||| flags.wire && n == side
            ||| flags.conductor && self.open_above(pos) && n == spec_relative(side, Direction::Up) && self.wire_at(n)
            ||| !flags.conductor && n == spec_relative(side, Direction::Down) && self.wire_at(n)
        }
    }

    /// Whether the wire at `pos` connects to `n` through one of its sides.
    pub open spec fn connects(&self, pos: BlockPos, n: BlockPos) -> bool {
        exists|h: int| 0 <= h < 4 && #[trigger] self.connects_through(pos, h, n)
    }
}

/// A wire view that reads the world's blocks connects the same wires.
pub proof fn lemma_view_connects(world: &WorldView, view: &WireView, a: BlockPos, b: BlockPos)
    requires
        forall|p: BlockPos| #[trigger] view.flags(p) == world.flags_at(p),
    ensures
        view.connects(a, b) == world.connects(a, b),
{
    assert forall|h: int| 0 <= h < 4 implies #[trigger] view.connects_through(a, h, b) == world.connects_through(a, h, b) by {
        let side = spec_relative(a, spec_horizontal(h));
        assert(view.flags(side) == world.flags_at(side));
        assert(view.flags(spec_relative(a, Direction::Up)) == world.flags_at(spec_relative(a, Direction::Up)));
        assert(view.flags(b) == world.flags_at(b));
        assert(view.wire_at(b) == world.wire_at(b));
    }
    if view.connects(a, b) {
        let h = choose|h: int| 0 <= h < 4 && #[trigger] view.connects_through(a, h, b);
        assert(world.connects_through(a, h, b));
    }
    if world.connects(a, b) {
        let h = choose|h: int| 0 <= h < 4 && #[trigger] world.connects_through(a, h, b);
        assert(view.connects_through(a, h, b));
    }
}

/// A coordinate shifted so that the unsigned order of the result is the
/// signed order of the coordinate.
pub open spec fn biased(v: i32) -> u32 {
    (v as u32) ^ 0x8000_0000u32
}

/// A position packed so that the order of keys is the order of positions.
pub open spec fn order_key(pos: BlockPos) -> u128 {
    ((biased(pos.x) as u128) << 64u128) | ((biased(pos.y) as u128) << 32u128) | (biased(pos.z) as u128)
}

/// The position of an ordered key.
pub open spec fn key_position(key: u128) -> BlockPos {
    BlockPos {
        x: (((key >> 64u128) as u32) ^ 0x8000_0000u32) as i32,
        y: (((key >> 32u128) as u32) ^ 0x8000_0000u32) as i32,
        z: ((key as u32) ^ 0x8000_0000u32) as i32,
    }
}

proof fn lemma_biased(a: i32, b: i32)
    ensures
        (a < b) == (biased(a) < biased(b)),
        (a == b) == (biased(a) == biased(b)),
        ((biased(a) ^ 0x8000_0000u32) as i32) == a,
{
    assert((a < b) == (((a as u32) ^ 0x8000_0000u32) < ((b as u32) ^ 0x8000_0000u32))) by (bit_vector);
    assert((a == b) == (((a as u32) ^ 0x8000_0000u32) == ((b as u32) ^ 0x8000_0000u32))) by (bit_vector);
    assert(((((a as u32) ^ 0x8000_0000u32) ^ 0x8000_0000u32) as i32) == a) by (bit_vector);
}

proof fn lemma_key_parts(x: u32, y: u32, z: u32)
    ensures
        ((((x as u128) << 64u128) | ((y as u128) << 32u128) | (z as u128)) >> 64u128) as u32 == x,
        ((((x as u128) << 64u128) | ((y as u128) << 32u128) | (z as u128)) >> 32u128) as u32 == y,
        (((x as u128) << 64u128) | ((y as u128) << 32u128) | (z as u128)) as u32 == z,
{
    assert(((((x as u128) << 64u128) | ((y as u128) << 32u128) | (z as u128)) >> 64u128) as u32 == x) by (bit_vector);
    assert(((((x as u128) << 64u128) | ((y as u128) << 32u128) | (z as u128)) >> 32u128) as u32 == y) by (bit_vector);
    assert((((x as u128) << 64u128) | ((y as u128) << 32u128) | (z as u128)) as u32 == z) by (bit_vector);
}

proof fn lemma_key_order_parts(x1: u32, y1: u32, z1: u32, x2: u32, y2: u32, z2: u32)
    ensures
        ((((x1 as u128) << 64u128) | ((y1 as u128) << 32u128) | (z1 as u128)) < (((x2 as u128) << 64u128) | ((
            y2 as u128) << 32u128) | (z2 as u128))) == (x1 < x2 || (x1 == x2 && (y1 < y2 || (y1 == y2 && z1
            < z2)))),
{
    assert(((((x1 as u128) << 64u128) | ((y1 as u128) << 32u128) | (z1 as u128)) < (((x2 as u128) << 64u128) | ((
        y2 as u128) << 32u128) | (z2 as u128))) == (x1 < x2 || (x1 == x2 && (y1 < y2 || (y1 == y2 && z1
        < z2))))) by (bit_vector);
}

/// Keys order as their positions, and every position is the position of
/// its key.
pub proof fn lemma_order_key(a: BlockPos, b: BlockPos)
    ensures
        (order_key(a) < order_key(b)) == pos_lt(a, b),
        key_position(order_key(a)) == a,
{
    lemma_biased(a.x, b.x);
    lemma_biased(a.y, b.y);
    lemma_biased(a.z, b.z);
    lemma_key_parts(biased(a.x), biased(a.y), biased(a.z));
    lemma_key_order_parts(biased(a.x), biased(a.y), biased(a.z), biased(b.x), biased(b.y), biased(b.z));
}

/// The ordered key of a position.
fn position_key(pos: BlockPos) -> (key: u128)
    ensures
        key == order_key(pos),
{
    let x = (pos.x as u32) ^ 0x8000_0000u32;
    let y = (pos.y as u32) ^ 0x8000_0000u32;
    let z = (pos.z as u32) ^ 0x8000_0000u32;
    ((x as u128) << 64u128) | ((y as u128) << 32u128) | (z as u128)
}

/// The position of an ordered key.
fn key_to_position(key: u128) -> (pos: BlockPos)
    ensures
        pos == key_position(key),
{
    BlockPos {
        x: (((key >> 64u128) as u32) ^ 0x8000_0000u32) as i32,
        y: (((key >> 32u128) as u32) ^ 0x8000_0000u32) as i32,
        z: ((key as u32) ^ 0x8000_0000u32) as i32,
    }
}

/// Whether entry `i` of `blocks` is the last one at its position.
pub open spec fn last_at<'a>(blocks: Seq<(BlockPos, BlockInfo<'a>)>, i: int) -> bool {
    forall|j: int| i < j < blocks.len() ==> #[trigger] blocks[j].0 != blocks[i].0
}

/// Whether some entry of `blocks` from `from` on stands at `pos`.
pub open spec fn listed_from<'a>(blocks: Seq<(BlockPos, BlockInfo<'a>)>, from: int, pos: BlockPos) -> bool {
    exists|i: int| from <= i < blocks.len() && #[trigger] blocks[i].0 == pos
}

impl<'a> WorldView<'a> {
    /// The world of the listed blocks; where a position is listed twice,
    /// the last entry counts.
    pub fn from_blocks(blocks: Vec<(BlockPos, BlockInfo<'a>)>) -> (world: WorldView<'a>)
        ensures
            world.valid(),
            forall|p: BlockPos| #[trigger] world.blocks.has(p) <==> listed_from(blocks@, 0, p),
            forall|p: BlockPos|
                #[trigger] world.blocks.has(p) ==> exists|i: int|
                    0 <= i < blocks@.len() && #[trigger] blocks@[i].0 == p && world.blocks.at(p) == blocks@[i].1
                        && last_at(blocks@, i),
    {
        let ghost all = blocks@;
        let mut rest = blocks;
        let mut map: PositionMap<BlockInfo<'a>> = PositionMap::new();
        let mut keys: Vec<u128> = Vec::new();
        while rest.len() > 0
            invariant
                rest@.len() <= all.len(),
                rest@ == all.subrange(0, rest@.len() as int),
                forall|p: BlockPos| #[trigger] map.has(p) <==> listed_from(all, rest@.len() as int, p),
                forall|p: BlockPos|
                    #[trigger] map.has(p) ==> exists|i: int|
                        rest@.len() <= i < all.len() && #[trigger] all[i].0 == p && map.at(p) == all[i].1
                            && last_at(all, i),
                forall|k: u128| #[trigger] keys@.contains(k) <==> exists|p: BlockPos| #[trigger] map.has(p) && k == order_key(p),
            decreases rest@.len(),
        {
            let ghost n = rest@.len() as int;
            let (pos, info) = rest.pop().unwrap();
            proof {
                assert(all[n - 1] == (pos, info));
                assert(rest@ =~= all.subrange(0, n - 1));
            }
            let present = match map.get(pos) {
                Some(_) => true,
                None => false,
            };
            if !present {
                let ghost before = map;
                let ghost before_keys = keys@;
                keys.push(position_key(pos));
                map.insert(pos, info);
                proof {
                    assert forall|p: BlockPos| #[trigger] map.has(p) <==> (before.has(p) || p == pos) by {
                        lemma_pack_injective(p, pos);
                    }
                    assert forall|p: BlockPos| #[trigger] map.has(p) <==> listed_from(all, n - 1, p) by {
                        if listed_from(all, n - 1, p) && p != pos {
                            let i = choose|i: int| n - 1 <= i < all.len() && #[trigger] all[i].0 == p;
                            assert(i != n - 1);
                            assert(listed_from(all, n, p));
                        }
                        if p == pos {
                            assert(all[n - 1].0 == pos);
                        }
                    }
                    assert forall|p: BlockPos| #[trigger] map.has(p) implies exists|i: int|
                        n - 1 <= i < all.len() && #[trigger] all[i].0 == p && map.at(p) == all[i].1 && last_at(all, i) by {
                        lemma_pack_injective(p, pos);
                        if p == pos {
                            assert(map.at(p) == info);
                            assert forall|j: int| n - 1 < j < all.len() implies #[trigger] all[j].0 != all[n - 1].0 by {
                                if all[j].0 == pos {
                                    assert(listed_from(all, n, pos));
                                }
                            }
                            assert(all[n - 1].0 == p);
                        } else {
                            assert(before.has(p));
                            assert(map.at(p) == before.at(p));
                        }
                    }
                    assert forall|k: u128| #[trigger] keys@.contains(k) <==> exists|p: BlockPos| #[trigger] map.has(p) && k == order_key(p) by {
                        if keys@.contains(k) {
                            let i = choose|i: int| 0 <= i < keys@.len() && keys@[i] == k;
                            if i < before_keys.len() {
                                assert(before_keys[i] == k);
                                assert(before_keys.contains(k));
                                let p = choose|p: BlockPos| #[trigger] before.has(p) && k == order_key(p);
                                assert(map.has(p));
                            } else {
                                assert(map.has(pos));
                            }
                        }
                        if exists|p: BlockPos| #[trigger] map.has(p) && k == order_key(p) {
                            let p = choose|p: BlockPos| #[trigger] map.has(p) && k == order_key(p);
                            if p == pos {
                                assert(keys@[keys@.len() - 1] == k);
                            } else {
                                assert(before.has(p));
                                assert(before_keys.contains(k));
                                let i = choose|i: int| 0 <= i < before_keys.len() && before_keys[i] == k;
                                assert(keys@[i] == k);
                            }
                        }
                    }
                }
            } else {
                proof {
                    assert forall|p: BlockPos| #[trigger] map.has(p) <==> listed_from(all, n - 1, p) by {
                        if listed_from(all, n - 1, p) && p != pos {
                            let i = choose|i: int| n - 1 <= i < all.len() && #[trigger] all[i].0 == p;
                            assert(i != n - 1);
                            assert(listed_from(all, n, p));
                        }
                    }
                    assert forall|p: BlockPos| #[trigger] map.has(p) implies exists|i: int|
                        n - 1 <= i < all.len() && #[trigger] all[i].0 == p && map.at(p) == all[i].1 && last_at(all, i) by {
                        let i = choose|i: int|
                            n <= i < all.len() && #[trigger] all[i].0 == p && map.at(p) == all[i].1 && last_at(all, i);
                    }
                }
            }
        }
        let ghost unsorted = keys@;
        sort_keys(&mut keys);
        let ghost sorted = keys@;
        proof {
            unsorted.to_multiset_ensures();
            sorted.to_multiset_ensures();
            assert forall|key: u128| sorted.contains(key) <==> unsorted.contains(key) by {
                if sorted.contains(key) {
                    assert(sorted.to_multiset().count(key) > 0);
                }
                if unsorted.contains(key) {
                    assert(unsorted.to_multiset().count(key) > 0);
                }
            }
        }
        let mut order: Vec<BlockPos> = Vec::new();
        let mut last: Option<u128> = None;
        let mut k: usize = 0;
        while k < keys.len()
            invariant
                keys@ == sorted,
                k <= sorted.len(),
                forall|i: int, j: int| 0 <= i < j < sorted.len() ==> sorted[i] <= sorted[j],
                forall|key: u128| sorted.contains(key) <==> unsorted.contains(key),
                forall|key: u128| #[trigger] unsorted.contains(key) <==> exists|p: BlockPos| #[trigger] map.has(p) && key == order_key(p),
                positions_ascending(order@),
                k == 0 ==> last is None && order@.len() == 0,
                k > 0 ==> last == Some(sorted[k - 1]) && order@.len() > 0 && order@.last() == key_position(sorted[k - 1]),
                forall|q: int| 0 <= q < k ==> #[trigger] order@.contains(key_position(sorted[q])),
                forall|i: int| 0 <= i < order@.len() ==> exists|q: int| 0 <= q < k && #[trigger] order@[i] == key_position(sorted[q]),
            decreases sorted.len() - k,
        {
            let key = keys[k];
            let fresh = match last {
                Some(previous) => previous != key,
                None => true,
            };
            if fresh {
                let ghost before = order@;
                proof {
                    assert(sorted.contains(key));
                    assert(unsorted.contains(key));
                    let p = choose|p: BlockPos| #[trigger] map.has(p) && key == order_key(p);
                    lemma_order_key(p, p);
                    if k > 0 {
                        assert(sorted.contains(sorted[k - 1]));
                        assert(unsorted.contains(sorted[k - 1]));
                        let p0 = choose|p0: BlockPos| #[trigger] map.has(p0) && sorted[k - 1] == order_key(p0);
                        lemma_order_key(p0, p);
                        assert(sorted[k - 1] < key);
                        assert(pos_lt(p0, p));
                        assert(key_position(sorted[k - 1]) == p0);
                    }
                }
                order.push(key_to_position(key));
                proof {
                    assert forall|i: int, j: int| 0 <= i < j < order@.len() implies pos_lt(order@[i], order@[j]) by {
                        if j == order@.len() - 1 && i < j {
                            assert(order@[i] == before[i]);
                            if i < before.len() - 1 {
                                assert(pos_lt(before[i], before.last()));
                            }
                        } else {
                            assert(order@[i] == before[i]);
                            assert(order@[j] == before[j]);
                        }
                    }
                    assert forall|q: int| 0 <= q < k + 1 implies #[trigger] order@.contains(key_position(sorted[q])) by {
                        if q < k {
                            assert(before.contains(key_position(sorted[q])));
                            let i = choose|i: int| 0 <= i < before.len() && before[i] == key_position(sorted[q]);
                            assert(order@[i] == before[i]);
                        } else {
                            assert(order@[order@.len() - 1] == key_position(sorted[q]));
                        }
                    }
                    assert forall|i: int| 0 <= i < order@.len() implies exists|q: int| 0 <= q < k + 1 && #[trigger] order@[i] == key_position(sorted[q]) by {
                        if i < before.len() {
                            assert(order@[i] == before[i]);
                        }
                    }
                }
            } else {
                proof {
                    assert forall|q: int| 0 <= q < k + 1 implies #[trigger] order@.contains(key_position(sorted[q])) by {
                        if q == k {
                            assert(order@[order@.len() - 1] == key_position(sorted[q]));
                        }
                    }
                }
            }
            last = Some(key);
            k += 1;
        }
        proof {
            assert forall|p: BlockPos| #[trigger] order@.contains(p) <==> map.has(p) by {
                if map.has(p) {
                    assert(unsorted.contains(order_key(p)));
                    assert(sorted.contains(order_key(p)));
                    let q = choose|q: int| 0 <= q < sorted.len() && sorted[q] == order_key(p);
                    lemma_order_key(p, p);
                    assert(order@.contains(key_position(sorted[q])));
                }
                if order@.contains(p) {
                    let i = choose|i: int| 0 <= i < order@.len() && order@[i] == p;
                    let q = choose|q: int| 0 <= q < k && #[trigger] order@[i] == key_position(sorted[q]);
                    assert(sorted.contains(sorted[q]));
                    assert(unsorted.contains(sorted[q]));
                    let p2 = choose|p2: BlockPos| #[trigger] map.has(p2) && sorted[q] == order_key(p2);
                    lemma_order_key(p2, p2);
                }
            }
        }
        WorldView { blocks: map, order }
    }
}

} // verus!
