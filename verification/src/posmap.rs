//! Maps keyed by block positions, held in a `rustc_hash` map keyed by the
//! position packed into one 128-bit integer.

use rustc_hash::{FxBuildHasher, FxHashMap};
use vstd::prelude::*;

use crate::position::BlockPos;

verus! {

#[verifier::external_type_specification]
#[verifier::external_body]
pub struct ExFxBuildHasher(FxBuildHasher);

/// A position packed as `x` in bits 64..96, `y` in bits 32..64 and `z` in bits 0..32.
pub open spec fn pack(pos: BlockPos) -> u128 {
    ((pos.x as u32 as u128) << 64u128) | ((pos.y as u32 as u128) << 32u128) | (pos.z as u32 as u128)
}

/// Packs a position into one integer key.
pub fn pack_position(pos: BlockPos) -> (key: u128)
    ensures
        key == pack(pos),
{
    ((pos.x as u32 as u128) << 64u128) | ((pos.y as u32 as u128) << 32u128) | (pos.z as u32 as u128)
}

/// Distinct positions have distinct keys.
pub proof fn lemma_pack_injective(a: BlockPos, b: BlockPos)
    ensures
        pack(a) == pack(b) ==> a == b,
{
    let (ax, ay, az) = (a.x as u32, a.y as u32, a.z as u32);
    let (bx, by, bz) = (b.x as u32, b.y as u32, b.z as u32);
    assert(((ax as u128) << 64u128) | ((ay as u128) << 32u128) | (az as u128) == ((bx as u128)
        << 64u128) | ((by as u128) << 32u128) | (bz as u128) ==> ax == bx && ay == by && az == bz)
        by (bit_vector);
    let (x1, y1, z1, x2, y2, z2) = (a.x, a.y, a.z, b.x, b.y, b.z);
    assert(x1 as u32 == x2 as u32 ==> x1 == x2) by (bit_vector);
    assert(y1 as u32 == y2 as u32 ==> y1 == y2) by (bit_vector);
    assert(z1 as u32 == z2 as u32 ==> z1 == z2) by (bit_vector);
}

/// Looks a key up with `HashMap::get`: the stored value if the key is present.
#[verifier::external_body]
fn fx_get<V>(map: &FxHashMap<u128, V>, key: u128) -> (result: Option<&V>)
    ensures
        result == (if map@.contains_key(key) {
            Some(&map@[key])
        } else {
            None::<&V>
        }),
{
    map.get(&key)
}

/// Stores a value with `HashMap::insert`, replacing any value under the key.
#[verifier::external_body]
fn fx_insert<V>(map: &mut FxHashMap<u128, V>, key: u128, value: V)
    ensures
        final(map)@ == old(map)@.insert(key, value),
{
    map.insert(key, value);
}

/// Takes a value out with `HashMap::remove`.
#[verifier::external_body]
fn fx_remove<V>(map: &mut FxHashMap<u128, V>, key: u128) -> (result: Option<V>)
    ensures
        final(map)@ == old(map)@.remove(key),
        result == (if old(map)@.contains_key(key) {
            Some(old(map)@[key])
        } else {
            None::<V>
        }),
{
    map.remove(&key)
}

/// The number of entries, from `HashMap::len`.
#[verifier::external_body]
fn fx_len<V>(map: &FxHashMap<u128, V>) -> (result: usize)
    ensures
        result == map@.len(),
{
    map.len()
}

/// A map from block positions to values.
#[derive(Debug)]
pub struct PositionMap<V> {
    entries: FxHashMap<u128, V>,
}

impl<V> PositionMap<V> {
    /// The entries as a map of packed keys.
    pub closed spec fn keyed(&self) -> Map<u128, V> {
        self.entries@
    }

    /// Whether `pos` has an entry.
    pub open spec fn has(&self, pos: BlockPos) -> bool {
        self.keyed().contains_key(pack(pos))
    }

    /// The entry of `pos`.
    pub open spec fn at(&self, pos: BlockPos) -> V {
        self.keyed()[pack(pos)]
    }

    /// The number of entries.
    pub open spec fn size(&self) -> nat {
        self.keyed().len()
    }

    /// An empty map.
    pub fn new() -> (map: PositionMap<V>)
        ensures
            map.keyed() == Map::<u128, V>::empty(),
    {
        PositionMap { entries: FxHashMap::default() }
    }

    /// The entry of `pos`, if any.
    pub fn get(&self, pos: BlockPos) -> (result: Option<&V>)
        ensures
            result == (if self.has(pos) {
                Some(&self.at(pos))
            } else {
                None::<&V>
            }),
    {
        fx_get(&self.entries, pack_position(pos))
    }

    /// Stores `value` as the entry of `pos`.
    pub fn insert(&mut self, pos: BlockPos, value: V)
        ensures
            final(self).keyed() == old(self).keyed().insert(pack(pos), value),
    {
        fx_insert(&mut self.entries, pack_position(pos), value);
    }

    /// Takes the entry of `pos` out of the map.
    pub fn remove(&mut self, pos: BlockPos) -> (result: Option<V>)
        ensures
            final(self).keyed() == old(self).keyed().remove(pack(pos)),
            result == (if old(self).has(pos) {
                Some(old(self).at(pos))
            } else {
                None::<V>
            }),
    {
        fx_remove(&mut self.entries, pack_position(pos))
    }

    /// The number of entries.
    pub fn len(&self) -> (result: usize)
        ensures
            result == self.size(),
    {
        fx_len(&self.entries)
    }
}

} // verus!
