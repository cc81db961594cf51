//! Power buckets: for each wire, how many of the wires that power it stand
//! at each contribution level, with a bit mask of the levels in use.

use vstd::prelude::*;
use vstd::std_specs::bits::{axiom_u16_leading_zeros, u16_leading_zeros};

use crate::compiled::dense::DenseWireGraph;
use crate::compiled::network::NetworkWireId;

verus! {

/// What a wire at `power` passes on to the wires it powers: one level less.
pub open spec fn contribution(power: u8) -> int {
    if power > 0 {
        power - 1
    } else {
        0
    }
}

/// How often wire `w` occurs in `ids`.
pub open spec fn occurrences(ids: Seq<NetworkWireId>, w: int) -> nat
    decreases ids.len(),
{
    if ids.len() == 0 {
        0
    } else {
        occurrences(ids.drop_last(), w) + if ids.last().0 == w {
            1nat
        } else {
            0nat
        }
    }
}

/// How many (wire, entry) pairs among the first `upto` wires have wire `w`
/// as a dependent and contribute `level` at `powers`.
pub open spec fn level_count(graph: DenseWireGraph, powers: Seq<u8>, w: int, level: int, upto: int) -> nat
    decreases upto,
{
    if upto <= 0 {
        0
    } else {
        level_count(graph, powers, w, level, upto - 1) + if contribution(powers[upto - 1]) == level {
            occurrences(graph.dependents_of(upto - 1), w)
        } else {
            0nat
        }
    }
}

/// How many entries of the first `upto` wires' dependent ranges name wire `w`.
pub open spec fn in_degree(graph: DenseWireGraph, w: int, upto: int) -> nat
    decreases upto,
{
    if upto <= 0 {
        0
    } else {
        in_degree(graph, w, upto - 1) + occurrences(graph.dependents_of(upto - 1), w)
    }
}

/// Whether bit `bit` of `mask` is set.
pub open spec fn bit_set(mask: u16, bit: int) -> bool {
    (mask >> (bit as u16)) & 1u16 == 1u16
}

/// Whether a mask has exactly the levels above zero with a nonzero count set.
pub open spec fn mask_matches(row: Seq<u8>, mask: u16) -> bool {
    &&& row.len() == 16
    &&& forall|p: int| 0 <= p < 16 ==> #[trigger] bit_set(mask, p) == (1 <= p && row[p] > 0)
}

/// The highest level at or below `from` with a nonzero count, or zero.
pub open spec fn highest_level(row: Seq<u8>, from: int) -> int
    decreases from,
{
    if from <= 0 {
        0
    } else if row[from] > 0 {
        from
    } else {
        highest_level(row, from - 1)
    }
}

/// Whether no wire has more than 255 dependent entries naming it, so that
/// every bucket count fits a byte.
pub open spec fn buckets_fit(graph: DenseWireGraph) -> bool {
    forall|w: int| 0 <= w < graph.count() ==> #[trigger] in_degree(graph, w, graph.count()) <= 255
}

pub proof fn lemma_occurrences_prefix(ids: Seq<NetworkWireId>, j: int, w: int)
    requires
        0 <= j < ids.len(),
    ensures
        occurrences(ids.subrange(0, j + 1), w) == occurrences(ids.subrange(0, j), w) + if ids[j].0
            == w {
            1nat
        } else {
            0nat
        },
{
    assert(ids.subrange(0, j + 1).drop_last() =~= ids.subrange(0, j));
}

pub proof fn lemma_occurrences_prefix_le(ids: Seq<NetworkWireId>, j: int, w: int)
    requires
        0 <= j <= ids.len(),
    ensures
        occurrences(ids.subrange(0, j), w) <= occurrences(ids, w),
    decreases ids.len() - j,
{
    if j < ids.len() {
        lemma_occurrences_prefix(ids, j, w);
        lemma_occurrences_prefix_le(ids, j + 1, w);
    } else {
        assert(ids.subrange(0, j) =~= ids);
    }
}

pub proof fn lemma_level_count_update(
    graph: DenseWireGraph,
    powers: Seq<u8>,
    v: int,
    x: u8,
    w: int,
    level: int,
    upto: int,
)
    requires
        0 <= v < powers.len(),
        upto <= powers.len(),
    ensures
        level_count(graph, powers.update(v, x), w, level, upto) + if v < upto && contribution(
            powers[v],
        ) == level {
            occurrences(graph.dependents_of(v), w)
        } else {
            0nat
        } == level_count(graph, powers, w, level, upto) + if v < upto && contribution(x)
            == level {
            occurrences(graph.dependents_of(v), w)
        } else {
            0nat
        },
    decreases upto,
{
    if upto > 0 {
        lemma_level_count_update(graph, powers, v, x, w, level, upto - 1);
    }
}

pub proof fn lemma_level_count_bounds(graph: DenseWireGraph, powers: Seq<u8>, v: int, w: int, level: int, upto: int)
    requires
        0 <= v < upto <= powers.len(),
    ensures
        level_count(graph, powers, w, level, upto) <= in_degree(graph, w, upto),
        contribution(powers[v]) == level ==> occurrences(graph.dependents_of(v), w) <= level_count(
            graph,
            powers,
            w,
            level,
            upto,
        ),
    decreases upto,
{
    if upto - 1 > v {
        lemma_level_count_bounds(graph, powers, v, w, level, upto - 1);
    } else {
        lemma_level_count_le_degree(graph, powers, w, level, upto - 1);
    }
}

pub proof fn lemma_level_count_le_degree(graph: DenseWireGraph, powers: Seq<u8>, w: int, level: int, upto: int)
    ensures
        level_count(graph, powers, w, level, upto) <= in_degree(graph, w, upto),
    decreases upto,
{
    if upto > 0 {
        lemma_level_count_le_degree(graph, powers, w, level, upto - 1);
    }
}

pub proof fn lemma_occurrences_positive(ids: Seq<NetworkWireId>, w: int)
    ensures
        occurrences(ids, w) > 0 <==> exists|k: int| 0 <= k < ids.len() && #[trigger] ids[k].0 == w,
    decreases ids.len(),
{
    if ids.len() > 0 {
        lemma_occurrences_positive(ids.drop_last(), w);
        if occurrences(ids.drop_last(), w) > 0 {
            let k = choose|k: int| 0 <= k < ids.drop_last().len() && #[trigger] ids.drop_last()[k].0 == w;
            assert(ids[k].0 == w);
        }
        if exists|k: int| 0 <= k < ids.len() && #[trigger] ids[k].0 == w {
            let k = choose|k: int| 0 <= k < ids.len() && #[trigger] ids[k].0 == w;
            if k < ids.len() - 1 {
                assert(ids.drop_last()[k].0 == w);
            }
        }
    }
}

/// A level is counted for a wire exactly when some earlier wire that has it
/// as a dependent contributes that level.
pub proof fn lemma_level_count_positive(graph: DenseWireGraph, powers: Seq<u8>, w: int, level: int, upto: int)
    ensures
        level_count(graph, powers, w, level, upto) > 0 <==> exists|v: int|
            0 <= v < upto && contribution(powers[v]) == level && #[trigger] occurrences(
                graph.dependents_of(v),
                w,
            ) > 0,
    decreases upto,
{
    if upto > 0 {
        lemma_level_count_positive(graph, powers, w, level, upto - 1);
        if exists|v: int|
            0 <= v < upto && contribution(powers[v]) == level && #[trigger] occurrences(
                graph.dependents_of(v),
                w,
            ) > 0 {
            let v = choose|v: int|
                0 <= v < upto && contribution(powers[v]) == level && #[trigger] occurrences(
                    graph.dependents_of(v),
                    w,
                ) > 0;
            if v < upto - 1 {
                assert(level_count(graph, powers, w, level, upto - 1) > 0);
            }
        }
    }
}

proof fn lemma_clear_bit(mask: u16, bit: u16, p: u16)
    requires
        bit < 16,
        p < 16,
    ensures
        ((mask & !(1u16 << bit)) >> p) & 1u16 == 1u16 <==> (p != bit && (mask >> p) & 1u16 == 1u16),
{
    assert(bit < 16 && p < 16 ==> (((mask & !(1u16 << bit)) >> p) & 1u16 == 1u16 <==> (p != bit
        && (mask >> p) & 1u16 == 1u16))) by (bit_vector);
}

proof fn lemma_set_bit(mask: u16, bit: u16, p: u16)
    requires
        bit < 16,
        p < 16,
    ensures
        ((mask | (1u16 << bit)) >> p) & 1u16 == 1u16 <==> (p == bit || (mask >> p) & 1u16 == 1u16),
{
    assert(bit < 16 && p < 16 ==> (((mask | (1u16 << bit)) >> p) & 1u16 == 1u16 <==> (p == bit
        || (mask >> p) & 1u16 == 1u16))) by (bit_vector);
}

proof fn lemma_highest_level_is(row: Seq<u8>, h: int, from: int)
    requires
        row.len() == 16,
        1 <= h <= from < 16,
        row[h] > 0,
        forall|p: int| h < p <= from ==> row[p] == 0,
    ensures
        highest_level(row, from) == h,
    decreases from,
{
    if from > h {
        lemma_highest_level_is(row, h, from - 1);
    }
}

proof fn lemma_highest_level_zero(row: Seq<u8>, from: int)
    requires
        row.len() == 16,
        from < 16,
        forall|p: int| 1 <= p <= from ==> row[p] == 0,
    ensures
        highest_level(row, from) == 0,
    decreases from,
{
    if from > 0 {
        lemma_highest_level_zero(row, from - 1);
    }
}

/// The highest level with a nonzero count, read from a matching mask.
pub fn highest_set_level(mask: u16, Ghost(row): Ghost<Seq<u8>>) -> (level: u8)
    requires
        mask_matches(row, mask),
    ensures
        level == highest_level(row, 15),
{
    broadcast use axiom_u16_leading_zeros;
    if mask == 0 {
        proof {
            assert forall|p: int| 1 <= p <= 15 implies row[p] == 0 by {
                let q = p as u16;
                assert((0u16 >> q) & 1u16 == 0u16) by (bit_vector);
                assert(bit_set(mask, p) == (1 <= p && row[p] > 0));
            }
            lemma_highest_level_zero(row, 15);
        }
        0
    } else {
        let zeros = mask.leading_zeros();
        proof {
            let h = (15 - zeros) as u16;
            assert(zeros < 16);
            assert((mask >> h) & 1u16 != 0u16);
            assert((mask >> h) & 1u16 != 0u16 ==> (mask >> h) & 1u16 == 1u16) by (bit_vector);
            assert(bit_set(mask, h as int));
            assert forall|p: int| h < p <= 15 implies row[p] == 0 by {
                let q = p as u16;
                assert(16 - u16_leading_zeros(mask) <= q < 16);
                assert((mask >> q) & 1u16 == 0u16);
                assert(bit_set(mask, p) == (1 <= p && row[p] > 0));
            }
            if h == 0 {
                assert(bit_set(mask, 0) == (1 <= 0 && row[0] > 0));
            }
            lemma_highest_level_is(row, h as int, 15);
        }
        (15 - zeros) as u8
    }
}

/// Bucket updates of one wire: the count at `from_level` drops by one when `from_level`
/// is above zero, the count at `to_level` grows by one when `to_level` is above zero,
/// and the mask keeps matching the counts.
pub fn update_bucket(row: &mut [u8; 16], mask: &mut u16, from_level: u8, to_level: u8)
    requires
        from_level < 16,
        to_level < 16,
        mask_matches(old(row)@, *old(mask)),
        from_level > 0 ==> old(row)@[from_level as int] > 0,
        to_level > 0 ==> old(row)@[to_level as int] - (if from_level == to_level {
            1int
        } else {
            0int
        }) < 255,
    ensures
        final(row)@ == (if to_level > 0 {
            let dropped = if from_level > 0 {
                old(row)@.update(from_level as int, (old(row)@[from_level as int] - 1) as u8)
            } else {
                old(row)@
            };
            dropped.update(to_level as int, (dropped[to_level as int] + 1) as u8)
        } else if from_level > 0 {
            old(row)@.update(from_level as int, (old(row)@[from_level as int] - 1) as u8)
        } else {
            old(row)@
        }),
        mask_matches(final(row)@, *final(mask)),
{
    if from_level > 0 {
        let count = row[from_level as usize] - 1;
        row[from_level as usize] = count;
        if count == 0 {
            let ghost before = *mask;
            *mask = *mask & !(1u16 << (from_level as u16));
            proof {
                assert forall|p: int| 0 <= p < 16 implies #[trigger] bit_set(*mask, p) == (1 <= p
                    && row@[p] > 0) by {
                    lemma_clear_bit(before, from_level as u16, p as u16);
                    assert(bit_set(before, p) == (1 <= p && old(row)@[p] > 0));
                }
            }
        } else {
            assert forall|p: int| 0 <= p < 16 implies #[trigger] bit_set(*mask, p) == (1 <= p
                && row@[p] > 0) by {
                assert(bit_set(*old(mask), p) == (1 <= p && old(row)@[p] > 0));
            }
        }
    }
    assert(mask_matches(row@, *mask));
    if to_level > 0 {
        let ghost before = *mask;
        let ghost before_row = row@;
        let count = row[to_level as usize] + 1;
        row[to_level as usize] = count;
        *mask = *mask | (1u16 << (to_level as u16));
        proof {
            assert forall|p: int| 0 <= p < 16 implies #[trigger] bit_set(*mask, p) == (1 <= p
                && row@[p] > 0) by {
                lemma_set_bit(before, to_level as u16, p as u16);
                assert(bit_set(before, p) == (1 <= p && before_row[p] > 0));
                if p != to_level {
                    assert(row@[p] == before_row[p]);
                }
            }
        }
    }
}

} // verus!
