//! The order in which a wire change updates the blocks around it: the
//! position itself and its six neighbours, ordered by the bucket that each
//! position falls into in a default Java hash map, ties kept in place.

use vstd::prelude::*;

use crate::position::{spec_relative, BlockPos, Direction};

verus! {

/// The bucket of a 16-bucket Java hash map that `pos` falls into: Java's
/// position hash, spread by its high half.
pub open spec fn spec_hash_bucket(pos: BlockPos) -> u32 {
    let hash = pos.z.wrapping_mul(31).wrapping_add(pos.y).wrapping_mul(31).wrapping_add(pos.x);
    let spread = hash ^ (((hash as u32) >> 16u32) as i32);
    (spread as u32) & 15u32
}

/// The bucket of a 16-bucket Java hash map that `pos` falls into.
pub fn java_hash_map_bucket(pos: BlockPos) -> (bucket: u32)
    ensures
        bucket == spec_hash_bucket(pos),
        bucket < 16,
{
    let hash = pos.z.wrapping_mul(31).wrapping_add(pos.y).wrapping_mul(31).wrapping_add(pos.x);
    let high = ((hash as u32) >> 16u32) as i32;
    let spread = hash ^ high;
    let bucket = (spread as u32) & 15u32;
    assert(bucket < 16) by (bit_vector)
        requires
            bucket == (spread as u32) & 15u32,
    ;
    bucket
}

/// A position and its neighbours in Java's direction order: down, up,
/// north, south, west, east.
pub open spec fn update_candidates(pos: BlockPos) -> Seq<BlockPos> {
    seq![
        pos,
        spec_relative(pos, Direction::Down),
        spec_relative(pos, Direction::Up),
        spec_relative(pos, Direction::North),
        spec_relative(pos, Direction::South),
        spec_relative(pos, Direction::West),
        spec_relative(pos, Direction::East),
    ]
}

/// The positions of `s` whose bucket is `bucket`, in order.
pub open spec fn in_bucket(s: Seq<BlockPos>, bucket: int) -> Seq<BlockPos> {
    s.filter(|p: BlockPos| spec_hash_bucket(p) == bucket)
}

/// The positions of `s` in the buckets below `upto`, bucket by bucket, each
/// bucket in the order of `s`: `s` stably sorted by bucket, as far as `upto`.
pub open spec fn by_bucket(s: Seq<BlockPos>, upto: int) -> Seq<BlockPos>
    decreases upto,
{
    if upto <= 0 {
        Seq::empty()
    } else {
        by_bucket(s, upto - 1) + in_bucket(s, upto - 1)
    }
}

proof fn lemma_in_bucket_push(s: Seq<BlockPos>, p: BlockPos, bucket: int)
    ensures
        in_bucket(s.push(p), bucket) == if spec_hash_bucket(p) == bucket {
            in_bucket(s, bucket).push(p)
        } else {
            in_bucket(s, bucket)
        },
{
    reveal_with_fuel(Seq::filter, 1);
    assert(s.push(p).drop_last() =~= s);
}

proof fn lemma_by_bucket_push_len(s: Seq<BlockPos>, p: BlockPos, upto: int)
    requires
        0 <= upto,
    ensures
        by_bucket(s.push(p), upto).len() == by_bucket(s, upto).len() + if spec_hash_bucket(p) < upto {
            1int
        } else {
            0int
        },
    decreases upto,
{
    if upto > 0 {
        lemma_by_bucket_push_len(s, p, upto - 1);
        lemma_in_bucket_push(s, p, upto - 1);
    }
}

proof fn lemma_by_bucket_len(s: Seq<BlockPos>)
    ensures
        by_bucket(s, 16).len() == s.len(),
    decreases s.len(),
{
    if s.len() == 0 {
        lemma_by_bucket_empty(s, 16);
    } else {
        let p = s.last();
        lemma_by_bucket_len(s.drop_last());
        lemma_by_bucket_push_len(s.drop_last(), p, 16);
        assert(s.drop_last().push(p) =~= s);
        let hash = p.z.wrapping_mul(31).wrapping_add(p.y).wrapping_mul(31).wrapping_add(p.x);
        let spread = hash ^ (((hash as u32) >> 16u32) as i32);
        assert((spread as u32) & 15u32 < 16) by (bit_vector);
    }
}

proof fn lemma_by_bucket_empty(s: Seq<BlockPos>, upto: int)
    requires
        s.len() == 0,
    ensures
        by_bucket(s, upto).len() == 0,
    decreases upto,
{
    if upto > 0 {
        lemma_by_bucket_empty(s, upto - 1);
        reveal_with_fuel(Seq::filter, 1);
    }
}

/// The blocks a wire change at `pos` updates by default, in order: `pos` and
/// its six neighbours in Java's direction order, stably sorted by the hash
/// map bucket each falls into.
pub fn default_wire_update_positions(pos: BlockPos) -> (positions: [BlockPos; 7])
    ensures
        positions@ == by_bucket(update_candidates(pos), 16),
{
    let candidates = [
        pos,
        pos.relative(Direction::Down),
        pos.relative(Direction::Up),
        pos.relative(Direction::North),
        pos.relative(Direction::South),
        pos.relative(Direction::West),
        pos.relative(Direction::East),
    ];
    let ghost all = update_candidates(pos);
    assert(candidates@ =~= all);
    let mut ordered: Vec<BlockPos> = Vec::new();
    let mut bucket: u32 = 0;
    while bucket < 16
        invariant
            bucket <= 16,
            candidates@ == all,
            ordered@ == by_bucket(all, bucket as int),
        decreases 16 - bucket,
    {
        let mut i: usize = 0;
        while i < 7
            invariant
                i <= 7,
                bucket < 16,
                candidates@ == all,
                ordered@ == by_bucket(all, bucket as int) + in_bucket(all.take(i as int), bucket as int),
            decreases 7 - i,
        {
            proof {
                assert(all.take(i + 1) =~= all.take(i as int).push(all[i as int]));
                lemma_in_bucket_push(all.take(i as int), all[i as int], bucket as int);
            }
            if java_hash_map_bucket(candidates[i]) == bucket {
                ordered.push(candidates[i]);
            }
            i += 1;
        }
        proof {
            assert(all.take(7) =~= all);
        }
        bucket += 1;
    }
    proof {
        lemma_by_bucket_len(all);
    }
    [ordered[0], ordered[1], ordered[2], ordered[3], ordered[4], ordered[5], ordered[6]]
}

} // verus!
