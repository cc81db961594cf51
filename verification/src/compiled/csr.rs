//! Compressed sparse row tables: offsets into a flat value array, one range
//! per owner.

use vstd::prelude::*;

verus! {

/// The number of owner indices in `owners` equal to `owner`.
pub open spec fn count_equal(owners: Seq<usize>, owner: int) -> nat
    decreases owners.len(),
{
    if owners.len() == 0 {
        0
    } else {
        count_equal(owners.drop_last(), owner) + if owners.last() == owner {
            1nat
        } else {
            0nat
        }
    }
}

/// The number of owner indices in `owners` below `bound`.
pub open spec fn count_below(owners: Seq<usize>, bound: int) -> nat
    decreases owners.len(),
{
    if owners.len() == 0 {
        0
    } else {
        count_below(owners.drop_last(), bound) + if owners.last() < bound {
            1nat
        } else {
            0nat
        }
    }
}

/// Whether `offsets` is a valid table for `length` owners and `value_length` values:
/// one more offset than owners, starting at zero, ending at the value count,
/// never decreasing.
pub open spec fn csr_valid(offsets: Seq<u32>, length: int, value_length: int) -> bool {
    &&& offsets.len() == length + 1
    &&& offsets[0] == 0
    &&& offsets[length] == value_length
    &&& forall|i: int, j: int| 0 <= i <= j <= length ==> offsets[i] <= offsets[j]
}

/// The values of owner `index`, or nothing when the table has no such range.
pub open spec fn csr_slice<T>(offsets: Seq<u32>, values: Seq<T>, index: int) -> Seq<T> {
    if 0 <= index && index + 1 < offsets.len() {
        values.subrange(offsets[index] as int, offsets[index + 1] as int)
    } else {
        Seq::empty()
    }
}

/// Whether every range that the table names lies inside the values.
pub open spec fn csr_ranges_in_bounds(offsets: Seq<u32>, value_length: int) -> bool {
    forall|i: int|
        0 <= i && i + 1 < offsets.len() ==> #[trigger] offsets[i] <= offsets[i + 1] <= value_length
}

pub proof fn lemma_count_below_step(owners: Seq<usize>, bound: int)
    ensures
        count_below(owners, bound + 1) == count_below(owners, bound) + count_equal(owners, bound),
    decreases owners.len(),
{
    if owners.len() > 0 {
        lemma_count_below_step(owners.drop_last(), bound);
    }
}

pub proof fn lemma_count_below_mono(owners: Seq<usize>, a: int, b: int)
    requires
        a <= b,
    ensures
        count_below(owners, a) <= count_below(owners, b),
    decreases owners.len(),
{
    if owners.len() > 0 {
        lemma_count_below_mono(owners.drop_last(), a, b);
    }
}

pub proof fn lemma_count_below_bounds(owners: Seq<usize>, bound: int)
    ensures
        count_below(owners, bound) <= owners.len(),
        bound <= 0 ==> count_below(owners, bound) == 0,
        (forall|k: int| 0 <= k < owners.len() ==> owners[k] < bound) ==> count_below(owners, bound)
            == owners.len(),
    decreases owners.len(),
{
    if owners.len() > 0 {
        lemma_count_below_bounds(owners.drop_last(), bound);
        if forall|k: int| 0 <= k < owners.len() ==> owners[k] < bound {
            assert forall|k: int| 0 <= k < owners.drop_last().len() implies owners.drop_last()[k]
                < bound by {
                assert(owners.drop_last()[k] == owners[k]);
            }
        }
    }
}

pub proof fn lemma_count_equal_bound(owners: Seq<usize>, owner: int)
    ensures
        count_equal(owners, owner) <= owners.len(),
    decreases owners.len(),
{
    if owners.len() > 0 {
        lemma_count_equal_bound(owners.drop_last(), owner);
    }
}

pub proof fn lemma_count_equal_push(owners: Seq<usize>, value: usize, owner: int)
    ensures
        count_equal(owners.push(value), owner) == count_equal(owners, owner) + if value == owner {
            1nat
        } else {
            0nat
        },
{
    assert(owners.push(value).drop_last() =~= owners);
}

/// The offsets that give owner `i` the values at `count_below(owners, i)`
/// up to `count_below(owners, i + 1)`: for owners listed in ascending order
/// these are exactly the positions of its entries.
pub fn csr_offsets(length: usize, owners: &[usize]) -> (offsets: Vec<u32>)
    requires
        length < usize::MAX,
        owners@.len() <= u32::MAX,
        forall|k: int| 0 <= k < owners@.len() ==> owners@[k] < length,
    ensures
        offsets@.len() == length + 1,
        forall|i: int| 0 <= i <= length ==> offsets@[i] == count_below(owners@, i),
        csr_valid(offsets@, length as int, owners@.len() as int),
{
    let mut offsets: Vec<u32> = vec![0u32; length + 1];
    let mut k: usize = 0;
    while k < owners.len()
        invariant
            k <= owners@.len(),
            owners@.len() <= u32::MAX,
            offsets@.len() == length + 1,
            forall|q: int| 0 <= q < owners@.len() ==> owners@[q] < length,
            offsets@[0] == 0,
            forall|i: int| 0 <= i < length ==> offsets@[i + 1] == count_equal(
                owners@.subrange(0, k as int),
                i,
            ),
        decreases owners@.len() - k,
    {
        let owner = owners[k];
        proof {
            lemma_count_equal_bound(owners@.subrange(0, k as int), owner as int);
            assert(owners@.subrange(0, k + 1) =~= owners@.subrange(0, k as int).push(owner));
            assert forall|i: int| 0 <= i < length implies count_equal(owners@.subrange(0, k + 1), i)
                == count_equal(owners@.subrange(0, k as int), i) + if owner == i {
                1nat
            } else {
                0nat
            } by {
                lemma_count_equal_push(owners@.subrange(0, k as int), owner, i);
            }
        }
        let current = offsets[owner + 1];
        let ghost prev = offsets@;
        offsets.set(owner + 1, current + 1);
        proof {
            assert forall|i: int| 0 <= i < length implies offsets@[i + 1] == #[trigger] count_equal(
                owners@.subrange(0, k + 1),
                i,
            ) by {
                if i != owner {
                    assert(offsets@[i + 1] == prev[i + 1]);
                    assert(prev[i + 1] == count_equal(owners@.subrange(0, k as int), i));
                } else {
                    assert(prev[i + 1] == count_equal(owners@.subrange(0, k as int), i));
                    lemma_count_equal_push(owners@.subrange(0, k as int), owner, i);
                }
            }
        }
        k += 1;
    }
    assert(owners@.subrange(0, owners@.len() as int) =~= owners@);
    assert forall|i: int| 1 <= i <= length implies offsets@[i] == count_equal(owners@, i - 1) by {
        assert(offsets@[(i - 1) + 1] == count_equal(owners@.subrange(0, owners@.len() as int), i - 1));
    }
    assert(offsets@[0] == count_below(owners@, 0)) by {
        lemma_count_below_bounds(owners@, 0);
    }
    let mut index: usize = 1;
    while index <= length
        invariant
            1 <= index <= length + 1,
            length < usize::MAX,
            owners@.len() <= u32::MAX,
            offsets@.len() == length + 1,
            offsets@[0] == 0,
            forall|i: int| 0 <= i < index ==> offsets@[i] == count_below(owners@, i),
            forall|i: int| index <= i <= length ==> offsets@[i] == count_equal(owners@, i - 1),
        decreases length + 1 - index,
    {
        proof {
            lemma_count_below_step(owners@, index - 1);
            lemma_count_below_bounds(owners@, index as int);
        }
        let sum = offsets[index] + offsets[index - 1];
        offsets.set(index, sum);
        index += 1;
    }
    proof {
        lemma_count_below_bounds(owners@, 0);
        lemma_count_below_bounds(owners@, length as int);
        assert forall|i: int, j: int| 0 <= i <= j <= length implies offsets@[i] <= offsets@[j] by {
            lemma_count_below_mono(owners@, i, j);
        }
    }
    offsets
}

/// The values of owner `index`, or an empty slice when the table has no such range.
pub fn csr_range<'a, T>(offsets: &[u32], values: &'a [T], index: usize) -> (range: &'a [T])
    requires
        csr_ranges_in_bounds(offsets@, values@.len() as int),
    ensures
        range@ == csr_slice(offsets@, values@, index as int),
{
    if index >= offsets.len() || index + 1 >= offsets.len() {
        return &values[0..0];
    }
    let start = offsets[index] as usize;
    let end = offsets[index + 1] as usize;
    &values[start..end]
}

/// Whether `offsets` is a valid table for `length` owners and `value_length` values.
pub fn csr_is_valid(length: usize, offsets: &[u32], value_length: usize) -> (result: bool)
    ensures
        result == csr_valid(offsets@, length as int, value_length as int),
{
    let count = offsets.len();
    if length >= usize::MAX || count != length + 1 || offsets[0] != 0 {
        return false;
    }
    if value_length > u32::MAX as usize || offsets[length] != value_length as u32 {
        return false;
    }
    let mut i: usize = 0;
    while i < length
        invariant
            offsets@.len() == length + 1,
            i <= length,
            forall|a: int, b: int| 0 <= a <= b <= i ==> offsets@[a] <= offsets@[b],
        decreases length - i,
    {
        if offsets[i] > offsets[i + 1] {
            return false;
        }
        i += 1;
    }
    true
}

pub proof fn lemma_csr_valid_in_bounds(offsets: Seq<u32>, length: int, value_length: int)
    requires
        csr_valid(offsets, length, value_length),
    ensures
        csr_ranges_in_bounds(offsets, value_length),
{
    assert forall|i: int| 0 <= i && i + 1 < offsets.len() implies #[trigger] offsets[i] <= offsets[i
        + 1] <= value_length by {
        assert(offsets[i + 1] <= offsets[length]);
    }
}

} // verus!
