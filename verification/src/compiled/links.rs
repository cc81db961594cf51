//! The dependent and predecessor tables of the wire graph: which wires a
//! wire powers and which wires power it, as the wire connections of the
//! world link them, each table ordered by owner and then by wire id.

use vstd::prelude::*;

use crate::compiled::closure::WireView;
use crate::compiled::csr::{count_below, csr_offsets, csr_slice, csr_valid, lemma_count_below_bounds, lemma_count_below_mono};
use crate::compiled::dense::unique_wires_below;
use crate::compiled::draft_order::sort_keys;
use crate::compiled::network::NetworkWireId;
use crate::compiled::static_network::{lemma_pack_pair, pack_pair};
use crate::position::BlockPos;
use crate::posmap::PositionMap;

verus! {

/// Whether `key` packs an id below `n` with an id below `m`.
pub open spec fn packs_below(key: u128, n: int, m: int) -> bool {
    exists|a: u32, b: u32| #![trigger pack_pair(a, b)] a < n && b < m && key == pack_pair(a, b)
}

/// Whether `unique` holds the keys of `keys`, once each, ascending.
pub open spec fn lists_once(unique: Seq<u128>, keys: Seq<u128>) -> bool {
    &&& forall|i: int, j: int| 0 <= i < j < unique.len() ==> unique[i] < unique[j]
    &&& forall|key: u128| unique.contains(key) <==> keys.contains(key)
}

/// Whether `offsets` and `wires` index the pairs of `keys`: the pairs once
/// each in ascending packed order, the wires the low halves, and each owner
/// (the high half) owning the run of pairs it starts.
pub open spec fn indexes_pairs(keys: Seq<u128>, n: int, offsets: Seq<u32>, wires: Seq<NetworkWireId>) -> bool {
    exists|unique: Seq<u128>|
        {
            &&& lists_once(unique, keys)
            &&& wires == unique.map_values(|key: u128| NetworkWireId(key as u32))
            &&& offsets.len() == n + 1
            &&& forall|i: int|
                0 <= i <= n ==> #[trigger] offsets[i] == count_below(
                    unique.map_values(|key: u128| (key >> 32u128) as usize),
                    i,
                )
        }
}

/// Sorts packed pairs, drops repeats and indexes them by their high half.
pub fn index_pairs(keys: &mut Vec<u128>, n: usize, m: usize) -> (result: (Vec<u32>, Vec<NetworkWireId>))
    requires
        n < u32::MAX,
        old(keys)@.len() <= u32::MAX,
        forall|q: int| 0 <= q < old(keys)@.len() ==> #[trigger] packs_below(old(keys)@[q], n as int, m as int),
    ensures
        indexes_pairs(old(keys)@, n as int, result.0@, result.1@),
        csr_valid(result.0@, n as int, result.1@.len() as int),
        forall|k: int| 0 <= k < result.1@.len() ==> (#[trigger] result.1@[k]).0 < m,
{
    let ghost unsorted = keys@;
    sort_keys(keys);
    let ghost sorted = keys@;
    proof {
        unsorted.to_multiset_ensures();
        sorted.to_multiset_ensures();
        assert forall|key: u128| sorted.contains(key) <==> unsorted.contains(key) by {
            if sorted.contains(key) {
                assert(sorted.to_multiset().count(key) > 0);
            }
            if unsorted.contains(key) {
                assert(unsorted.to_multiset().count(key) > 0);
            }
        }
    }
    let mut unique: Vec<u128> = Vec::new();
    let mut owners: Vec<usize> = Vec::new();
    let mut wires: Vec<NetworkWireId> = Vec::new();
    let mut k: usize = 0;
    while k < keys.len()
        invariant
            keys@ == sorted,
            k <= sorted.len(),
            sorted.len() == unsorted.len(),
            unsorted.len() <= u32::MAX,
            n < u32::MAX,
            forall|i: int, j: int| 0 <= i < j < sorted.len() ==> sorted[i] <= sorted[j],
            forall|key: u128| sorted.contains(key) <==> unsorted.contains(key),
            forall|q: int| 0 <= q < unsorted.len() ==> #[trigger] packs_below(unsorted[q], n as int, m as int),
            forall|i: int, j: int| 0 <= i < j < unique@.len() ==> unique@[i] < unique@[j],
            unique@.len() <= k,
            k > 0 ==> unique@.len() > 0 && unique@.last() == sorted[k - 1],
            forall|q: int| 0 <= q < k ==> unique@.contains(#[trigger] sorted[q]),
            forall|i: int| 0 <= i < unique@.len() ==> exists|q: int| 0 <= q < k && #[trigger] unique@[i] == sorted[q],
            owners@ == unique@.map_values(|key: u128| (key >> 32u128) as usize),
            wires@ == unique@.map_values(|key: u128| NetworkWireId(key as u32)),
            forall|i: int| 0 <= i < owners@.len() ==> #[trigger] owners@[i] < n,
            forall|i: int| 0 <= i < wires@.len() ==> (#[trigger] wires@[i]).0 < m,
        decreases sorted.len() - k,
    {
        let key = keys[k];
        let fresh = if unique.len() == 0 {
            true
        } else {
            unique[unique.len() - 1] != key
        };
        if fresh {
            proof {
                assert(sorted.contains(sorted[k as int]));
                let q0 = choose|j: int| 0 <= j < unsorted.len() && unsorted[j] == sorted[k as int];
                assert(packs_below(unsorted[q0], n as int, m as int));
                let (a, b) = choose|a: u32, b: u32| a < n && b < m && unsorted[q0] == pack_pair(a, b);
                lemma_pack_pair(a, b);
            }
            let ghost before = unique@;
            unique.push(key);
            owners.push((key >> 32u128) as usize);
            wires.push(NetworkWireId(key as u32));
            proof {
                assert forall|i: int, j: int| 0 <= i < j < unique@.len() implies unique@[i] < unique@[j] by {
                    if j == unique@.len() - 1 && i < j {
                        assert(unique@[i] == before[i]);
                        if i < before.len() - 1 {
                            assert(before[i] < before.last());
                        }
                        let a = choose|a: int| 0 <= a < k && #[trigger] before[before.len() - 1] == sorted[a];
                        assert(sorted[a] <= sorted[k as int]);
                    } else {
                        assert(unique@[i] == before[i]);
                        assert(unique@[j] == before[j]);
                    }
                }
                assert forall|q: int| 0 <= q < k + 1 implies unique@.contains(#[trigger] sorted[q]) by {
                    if q < k {
                        assert(before.contains(sorted[q]));
                        let i = choose|i: int| 0 <= i < before.len() && before[i] == sorted[q];
                        assert(unique@[i] == before[i]);
                    } else {
                        assert(unique@[unique@.len() - 1] == sorted[q]);
                    }
                }
                assert forall|i: int| 0 <= i < unique@.len() implies exists|q: int| 0 <= q < k + 1 && #[trigger] unique@[i] == sorted[q] by {
                    if i < before.len() {
                        assert(unique@[i] == before[i]);
                    }
                }
                assert(owners@ =~= unique@.map_values(|key: u128| (key >> 32u128) as usize));
                assert(wires@ =~= unique@.map_values(|key: u128| NetworkWireId(key as u32)));
            }
        } else {
            proof {
                assert forall|q: int| 0 <= q < k + 1 implies unique@.contains(#[trigger] sorted[q]) by {
                    if q == k {
                        assert(unique@[unique@.len() - 1] == sorted[q]);
                    }
                }
            }
        }
        k += 1;
    }
    proof {
        assert forall|key: u128| unique@.contains(key) <==> unsorted.contains(key) by {
            if unique@.contains(key) {
                let i = choose|i: int| 0 <= i < unique@.len() && unique@[i] == key;
                let a = choose|a: int| 0 <= a < sorted.len() && #[trigger] unique@[i] == sorted[a];
                assert(sorted.contains(sorted[a]));
            }
            if unsorted.contains(key) {
                assert(sorted.contains(key));
                let j = choose|j: int| 0 <= j < sorted.len() && sorted[j] == key;
                assert(unique@.contains(sorted[j]));
            }
        }
        assert(unique@.len() <= u32::MAX);
    }
    let offsets = csr_offsets(n, owners.as_slice());
    proof {
        assert(lists_once(unique@, unsorted));
        assert(indexes_pairs(unsorted, n as int, offsets@, wires@));
    }
    (offsets, wires)
}

/// Whether wire `t` of `positions` reads power from wire `s`: the wire at
/// the position of `t` connects to the position of `s`.
pub open spec fn wires_linked(view: &WireView, positions: Seq<BlockPos>, s: int, t: int) -> bool {
    0 <= s < positions.len() && 0 <= t < positions.len() && view.connects(positions[t], positions[s])
}

/// Whether `key` packs the linked pair of `s` and `t`: the source first when
/// `by_source` holds, else the target first.
pub open spec fn keyed_link(
    view: &WireView,
    positions: Seq<BlockPos>,
    key: u128,
    by_source: bool,
    s: int,
    t: int,
) -> bool {
    &&& wires_linked(view, positions, s, t)
    &&& key == if by_source {
        pack_pair(s as u32, t as u32)
    } else {
        pack_pair(t as u32, s as u32)
    }
}

/// Whether `key` packs a linked pair whose target is below `upto`.
pub open spec fn link_key(view: &WireView, positions: Seq<BlockPos>, key: u128, by_source: bool, upto: int) -> bool {
    exists|s: int, t: int| #![trigger keyed_link(view, positions, key, by_source, s, t)]
        t < upto && keyed_link(view, positions, key, by_source, s, t)
}

/// Whether `offsets` and `wires` index every linked pair once: by source,
/// listing the wires each wire powers, when `by_source` holds; else by
/// target, listing the wires that power each wire; in ascending id order.
pub open spec fn indexes_links(
    view: &WireView,
    positions: Seq<BlockPos>,
    offsets: Seq<u32>,
    wires: Seq<NetworkWireId>,
    by_source: bool,
) -> bool {
    exists|keys: Seq<u128>|
        #![trigger indexes_pairs(keys, positions.len() as int, offsets, wires)]
        (forall|key: u128| #[trigger] keys.contains(key) <==> link_key(view, positions, key, by_source, positions.len() as int))
            && indexes_pairs(keys, positions.len() as int, offsets, wires)
}

/// Whether `index` names each position by its slot, and nothing else.
pub open spec fn indexes_positions(index: &PositionMap<NetworkWireId>, positions: Seq<BlockPos>) -> bool {
    &&& forall|i: int| 0 <= i < positions.len() ==> #[trigger] index.has(positions[i]) && index.at(positions[i]).0 == i
    &&& forall|pos: BlockPos|
        #[trigger] index.has(pos) ==> index.at(pos).0 < positions.len() && positions[index.at(pos).0 as int] == pos
}

/// In ascending owners, the entries below `count_below(owners, b)` are
/// exactly those whose owner is below `b`.
proof fn lemma_sorted_count_below(owners: Seq<usize>, b: int, k: int)
    requires
        forall|i: int, j: int| 0 <= i <= j < owners.len() ==> owners[i] <= owners[j],
        0 <= k < owners.len(),
    ensures
        (k < count_below(owners, b)) == (owners[k] < b),
    decreases owners.len(),
{
    let init = owners.drop_last();
    lemma_count_below_bounds(init, b);
    if owners.last() < b {
        assert forall|q: int| 0 <= q < owners.len() implies owners[q] < b by {
            assert(owners[q] <= owners[owners.len() - 1]);
        }
        lemma_count_below_bounds(owners, b);
    } else if k < owners.len() - 1 {
        assert(init[k] == owners[k]);
        lemma_sorted_count_below(init, b, k);
    }
}

/// A key that packs two ids below 2^32 is the pack of its halves.
proof fn lemma_key_halves(key: u128, a: u32, b: u32)
    requires
        key == pack_pair(a, b),
    ensures
        (key >> 32u128) as u32 == a,
        key as u32 == b,
        key >> 32u128 == a as u128,
{
    lemma_pack_pair(a, b);
}

/// Ordered keys order their high halves, and within one high half their
/// low halves strictly.
proof fn lemma_key_order(x: u128, y: u128)
    requires
        x < y,
        x >> 32u128 < 0x1_0000_0000u128,
        y >> 32u128 < 0x1_0000_0000u128,
    ensures
        x >> 32u128 <= y >> 32u128,
        x >> 32u128 == y >> 32u128 ==> (x as u32) < (y as u32),
{
    assert(x < y ==> x >> 32u128 <= y >> 32u128) by (bit_vector);
    assert((x < y && x >> 32u128 == y >> 32u128) ==> (x as u32) < (y as u32)) by (bit_vector);
}

/// The runs that an index of packed pairs gives each owner: the wires of
/// owner `s` are the low halves of its pairs, strictly ascending and below
/// `n`; wire `t` is among them exactly when the pair of `s` and `t` is.
pub proof fn lemma_pairs_runs(keys: Seq<u128>, n: int, m: int, offsets: Seq<u32>, wires: Seq<NetworkWireId>)
    requires
        indexes_pairs(keys, n, offsets, wires),
        0 <= n < u32::MAX,
        forall|q: int| 0 <= q < keys.len() ==> #[trigger] packs_below(keys[q], n, m),
    ensures
        forall|s: int| 0 <= s < n ==> unique_wires_below(#[trigger] csr_slice(offsets, wires, s), m),
        forall|s: int, t: int|
            0 <= s < n && 0 <= t < m ==> (#[trigger] csr_slice(offsets, wires, s).contains(NetworkWireId(t as u32))
                <==> keys.contains(pack_pair(s as u32, t as u32))),
{
    let unique = choose|unique: Seq<u128>|
        {
            &&& lists_once(unique, keys)
            &&& wires == unique.map_values(|key: u128| NetworkWireId(key as u32))
            &&& offsets.len() == n + 1
            &&& forall|i: int|
                0 <= i <= n ==> #[trigger] offsets[i] == count_below(
                    unique.map_values(|key: u128| (key >> 32u128) as usize),
                    i,
                )
        };
    let owners = unique.map_values(|key: u128| (key >> 32u128) as usize);
    assert forall|i: int| 0 <= i < unique.len() implies #[trigger] unique[i] >> 32u128 < n && (unique[i] as u32) < m
        && unique[i] == pack_pair((unique[i] >> 32u128) as u32, unique[i] as u32) by {
        assert(unique.contains(unique[i]));
        assert(keys.contains(unique[i]));
        let q = choose|q: int| 0 <= q < keys.len() && keys[q] == unique[i];
        assert(packs_below(keys[q], n, m));
        let (a, b) = choose|a: u32, b: u32| a < n && b < m && keys[q] == pack_pair(a, b);
        lemma_key_halves(unique[i], a, b);
    }
    assert forall|i: int, j: int| 0 <= i <= j < owners.len() implies owners[i] <= owners[j] by {
        if i < j {
            assert(unique[i] >> 32u128 < n && unique[j] >> 32u128 < n);
            lemma_key_order(unique[i], unique[j]);
        }
    }
    assert forall|s: int| 0 <= s < n implies unique_wires_below(#[trigger] csr_slice(offsets, wires, s), m) by {
        let run = csr_slice(offsets, wires, s);
        lemma_count_below_mono(owners, s, s + 1);
        lemma_count_below_bounds(owners, s + 1);
        assert(run == wires.subrange(offsets[s] as int, offsets[s + 1] as int));
        assert forall|a: int, b: int| 0 <= a < b < run.len() implies run[a].0 < run[b].0 by {
            let i = offsets[s] + a;
            let j = offsets[s] + b;
            assert(offsets[s] == count_below(owners, s) && offsets[s + 1] == count_below(owners, s + 1));
            lemma_sorted_count_below(owners, s, i);
            lemma_sorted_count_below(owners, s + 1, i);
            lemma_sorted_count_below(owners, s, j);
            lemma_sorted_count_below(owners, s + 1, j);
            assert(owners[i] == s && owners[j] == s);
            assert(unique[i] >> 32u128 < n && unique[j] >> 32u128 < n);
            lemma_key_order(unique[i], unique[j]);
        }
        assert forall|a: int| 0 <= a < run.len() implies run[a].0 < m by {
            let i = offsets[s] + a;
            assert((unique[i] as u32) < m);
        }
    }
    assert forall|s: int, t: int|
        0 <= s < n && 0 <= t < m implies (#[trigger] csr_slice(offsets, wires, s).contains(NetworkWireId(t as u32))
            <==> keys.contains(pack_pair(s as u32, t as u32))) by {
        let run = csr_slice(offsets, wires, s);
        lemma_count_below_mono(owners, s, s + 1);
        lemma_count_below_bounds(owners, s + 1);
        assert(run == wires.subrange(offsets[s] as int, offsets[s + 1] as int));
        if run.contains(NetworkWireId(t as u32)) {
            let a = choose|a: int| 0 <= a < run.len() && run[a] == NetworkWireId(t as u32);
            let i = offsets[s] + a;
            assert(offsets[s] == count_below(owners, s) && offsets[s + 1] == count_below(owners, s + 1));
            lemma_sorted_count_below(owners, s, i);
            lemma_sorted_count_below(owners, s + 1, i);
            assert(owners[i] == s);
            assert(unique[i] == pack_pair(s as u32, t as u32));
            assert(unique.contains(unique[i]));
        }
        if keys.contains(pack_pair(s as u32, t as u32)) {
            assert(unique.contains(pack_pair(s as u32, t as u32)));
            let i = choose|i: int| 0 <= i < unique.len() && unique[i] == pack_pair(s as u32, t as u32);
            lemma_key_halves(unique[i], s as u32, t as u32);
            assert(owners[i] == s);
            assert(offsets[s] == count_below(owners, s) && offsets[s + 1] == count_below(owners, s + 1));
            lemma_sorted_count_below(owners, s, i);
            lemma_sorted_count_below(owners, s + 1, i);
            let a = i - offsets[s];
            assert(run[a] == wires[i]);
        }
    }
}

proof fn lemma_push_keeps(keys: Seq<u128>, x: u128, y: u128)
    requires
        keys.contains(y),
    ensures
        keys.push(x).contains(y),
{
    let i = choose|i: int| 0 <= i < keys.len() && keys[i] == y;
    assert(keys.push(x)[i] == y);
}

/// The dependent and predecessor tables of the wires at `positions`: wire
/// `t` depends on wire `s` when the wire at `t` connects to the position of
/// `s`. The first pair of tables lists, for each wire, the wires it powers;
/// the second, the wires that power it; both once each, by ascending id.
pub fn compile_links(positions: &Vec<BlockPos>, index: &PositionMap<NetworkWireId>, view: &WireView) -> (links: (
    Vec<u32>,
    Vec<NetworkWireId>,
    Vec<u32>,
    Vec<NetworkWireId>,
))
    requires
        positions@.len() <= 0x1FFF_FFFF,
        indexes_positions(index, positions@),
    ensures
        indexes_links(view, positions@, links.0@, links.1@, true),
        indexes_links(view, positions@, links.2@, links.3@, false),
        csr_valid(links.0@, positions@.len() as int, links.1@.len() as int),
        csr_valid(links.2@, positions@.len() as int, links.3@.len() as int),
        forall|k: int| 0 <= k < links.1@.len() ==> (#[trigger] links.1@[k]).0 < positions@.len(),
        forall|k: int| 0 <= k < links.3@.len() ==> (#[trigger] links.3@[k]).0 < positions@.len(),
        forall|s: int|
            0 <= s < positions@.len() ==> unique_wires_below(#[trigger] csr_slice(links.0@, links.1@, s), positions@.len() as int),
        forall|t: int|
            0 <= t < positions@.len() ==> unique_wires_below(#[trigger] csr_slice(links.2@, links.3@, t), positions@.len() as int),
        forall|s: int, t: int|
            0 <= s < positions@.len() && 0 <= t < positions@.len() ==> (#[trigger] csr_slice(links.0@, links.1@, s).contains(
                NetworkWireId(t as u32),
            ) <==> wires_linked(view, positions@, s, t)),
        forall|s: int, t: int|
            0 <= s < positions@.len() && 0 <= t < positions@.len() ==> (#[trigger] csr_slice(links.2@, links.3@, t).contains(
                NetworkWireId(s as u32),
            ) <==> wires_linked(view, positions@, s, t)),
{
    let n = positions.len();
    let ghost ps = positions@;
    let mut forward: Vec<u128> = Vec::new();
    let mut backward: Vec<u128> = Vec::new();
    let mut t: usize = 0;
    while t < n
        invariant
            n == ps.len(),
            ps == positions@,
            n <= 0x1FFF_FFFF,
            t <= n,
            indexes_positions(index, ps),
            forward@.len() <= 8 * t,
            backward@.len() <= 8 * t,
            forall|q: int| 0 <= q < forward@.len() ==> #[trigger] packs_below(forward@[q], n as int, n as int),
            forall|q: int| 0 <= q < backward@.len() ==> #[trigger] packs_below(backward@[q], n as int, n as int),
            forall|key: u128| #[trigger] forward@.contains(key) ==> link_key(view, ps, key, true, t as int),
            forall|key: u128| #[trigger] backward@.contains(key) ==> link_key(view, ps, key, false, t as int),
            forall|s: int, u: int|
                0 <= u < t && #[trigger] wires_linked(view, ps, s, u) ==> forward@.contains(pack_pair(s as u32, u as u32))
                    && backward@.contains(pack_pair(u as u32, s as u32)),
        decreases n - t,
    {
        let neighbors = view.wire_neighbors(positions[t]);
        let mut j: usize = 0;
        while j < neighbors.len()
            invariant
                n == ps.len(),
                ps == positions@,
                n <= 0x1FFF_FFFF,
                t < n,
                j <= neighbors@.len(),
                neighbors@.len() <= 8,
                indexes_positions(index, ps),
                forward@.len() <= 8 * t + j,
                backward@.len() <= 8 * t + j,
                forall|q: int| 0 <= q < forward@.len() ==> #[trigger] packs_below(forward@[q], n as int, n as int),
                forall|q: int| 0 <= q < backward@.len() ==> #[trigger] packs_below(backward@[q], n as int, n as int),
                forall|key: u128| #[trigger] forward@.contains(key) ==> link_key(view, ps, key, true, t + 1),
                forall|key: u128| #[trigger] backward@.contains(key) ==> link_key(view, ps, key, false, t + 1),
                forall|s: int, u: int|
                    0 <= u < t && #[trigger] wires_linked(view, ps, s, u) ==> forward@.contains(pack_pair(s as u32, u as u32))
                        && backward@.contains(pack_pair(u as u32, s as u32)),
                forall|k: int|
                    0 <= k < j && index.has(#[trigger] neighbors@[k]) ==> forward@.contains(
                        pack_pair(index.at(neighbors@[k]).0, t as u32),
                    ) && backward@.contains(pack_pair(t as u32, index.at(neighbors@[k]).0)),
                forall|n2: BlockPos| #[trigger] neighbors@.contains(n2) <==> view.connects(ps[t as int], n2),
            decreases neighbors@.len() - j,
        {
            match index.get(neighbors[j]) {
                Some(id) => {
                    let source = id.0;
                    let ghost s = source as int;
                    let ghost old_forward = forward@;
                    let ghost old_backward = backward@;
                    let down = ((source as u128) << 32u128) | (t as u32 as u128);
                    let up = ((t as u32 as u128) << 32u128) | (source as u128);
                    proof {
                        assert(down == pack_pair(source, t as u32));
                        assert(up == pack_pair(t as u32, source));
                        assert(neighbors@.contains(neighbors@[j as int]));
                        assert(ps[s] == neighbors@[j as int]);
                        assert(wires_linked(view, ps, s, t as int));
                        assert(keyed_link(view, ps, down, true, s, t as int));
                        assert(keyed_link(view, ps, up, false, s, t as int));
                        assert(packs_below(down, n as int, n as int)) by {
                            assert(source < n && (t as u32) < n && down == pack_pair(source, t as u32));
                        }
                        assert(packs_below(up, n as int, n as int)) by {
                            assert((t as u32) < n && source < n && up == pack_pair(t as u32, source));
                        }
                    }
                    forward.push(down);
                    backward.push(up);
                    proof {
                        assert forall|key: u128| #[trigger] forward@.contains(key) implies link_key(view, ps, key, true, t + 1) by {
                            if key != down {
                                let i = choose|i: int| 0 <= i < forward@.len() && forward@[i] == key;
                                assert(old_forward[i] == key);
                                assert(old_forward.contains(key));
                            }
                        }
                        assert forall|key: u128| #[trigger] backward@.contains(key) implies link_key(view, ps, key, false, t + 1) by {
                            if key != up {
                                let i = choose|i: int| 0 <= i < backward@.len() && backward@[i] == key;
                                assert(old_backward[i] == key);
                                assert(old_backward.contains(key));
                            }
                        }
                        assert forall|s2: int, u: int|
                            0 <= u < t && #[trigger] wires_linked(view, ps, s2, u) implies forward@.contains(
                                pack_pair(s2 as u32, u as u32),
                            ) && backward@.contains(pack_pair(u as u32, s2 as u32)) by {
                            lemma_push_keeps(old_forward, down, pack_pair(s2 as u32, u as u32));
                            lemma_push_keeps(old_backward, up, pack_pair(u as u32, s2 as u32));
                        }
                        assert forall|k: int|
                            0 <= k < j + 1 && index.has(#[trigger] neighbors@[k]) implies forward@.contains(
                                pack_pair(index.at(neighbors@[k]).0, t as u32),
                            ) && backward@.contains(pack_pair(t as u32, index.at(neighbors@[k]).0)) by {
                            if k < j {
                                lemma_push_keeps(old_forward, down, pack_pair(index.at(neighbors@[k]).0, t as u32));
                                lemma_push_keeps(old_backward, up, pack_pair(t as u32, index.at(neighbors@[k]).0));
                            } else {
                                assert(forward@[forward@.len() - 1] == down);
                                assert(backward@[backward@.len() - 1] == up);
                            }
                        }
                    }
                },
                None => {},
            }
            j += 1;
        }
        proof {
            assert forall|s: int, u: int|
                0 <= u < t + 1 && #[trigger] wires_linked(view, ps, s, u) implies forward@.contains(
                    pack_pair(s as u32, u as u32),
                ) && backward@.contains(pack_pair(u as u32, s as u32)) by {
                if u == t {
                    assert(neighbors@.contains(ps[s]));
                    let k = choose|k: int| 0 <= k < neighbors@.len() && neighbors@[k] == ps[s];
                    assert(index.has(ps[s]));
                    assert(index.at(neighbors@[k]).0 == s);
                }
            }
            assert forall|key: u128| #[trigger] forward@.contains(key) implies link_key(view, ps, key, true, (t + 1) as int) by {
            }
        }
        t += 1;
    }
    let ghost all_forward = forward@;
    let ghost all_backward = backward@;
    let (dependent_offsets, dependents) = index_pairs(&mut forward, n, n);
    let (predecessor_offsets, predecessors) = index_pairs(&mut backward, n, n);
    proof {
        assert forall|key: u128| #[trigger] all_forward.contains(key) <==> link_key(view, ps, key, true, n as int) by {
            if link_key(view, ps, key, true, n as int) {
                let (s, u) = choose|s: int, u: int| u < n && keyed_link(view, ps, key, true, s, u);
                assert(wires_linked(view, ps, s, u));
            }
        }
        assert forall|key: u128| #[trigger] all_backward.contains(key) <==> link_key(view, ps, key, false, n as int) by {
            if link_key(view, ps, key, false, n as int) {
                let (s, u) = choose|s: int, u: int| u < n && keyed_link(view, ps, key, false, s, u);
                assert(wires_linked(view, ps, s, u));
            }
        }
        assert(indexes_pairs(all_forward, n as int, dependent_offsets@, dependents@));
        assert(indexes_pairs(all_backward, n as int, predecessor_offsets@, predecessors@));
        lemma_pairs_runs(all_forward, n as int, n as int, dependent_offsets@, dependents@);
        lemma_pairs_runs(all_backward, n as int, n as int, predecessor_offsets@, predecessors@);
        assert forall|s: int, t: int|
            0 <= s < n && 0 <= t < n implies (#[trigger] csr_slice(dependent_offsets@, dependents@, s).contains(
                NetworkWireId(t as u32),
            ) <==> wires_linked(view, ps, s, t)) by {
            if all_forward.contains(pack_pair(s as u32, t as u32)) {
                let (s2, u) = choose|s2: int, u: int| #![trigger keyed_link(view, ps, pack_pair(s as u32, t as u32), true, s2, u)] u < n && keyed_link(view, ps, pack_pair(s as u32, t as u32), true, s2, u);
                lemma_key_halves(pack_pair(s as u32, t as u32), s as u32, t as u32);
                lemma_key_halves(pack_pair(s2 as u32, u as u32), s2 as u32, u as u32);
            }
        }
        assert forall|s: int, t: int|
            0 <= s < n && 0 <= t < n implies (#[trigger] csr_slice(predecessor_offsets@, predecessors@, t).contains(
                NetworkWireId(s as u32),
            ) <==> wires_linked(view, ps, s, t)) by {
            if all_backward.contains(pack_pair(t as u32, s as u32)) {
                let (s2, u) = choose|s2: int, u: int| #![trigger keyed_link(view, ps, pack_pair(t as u32, s as u32), false, s2, u)] u < n && keyed_link(view, ps, pack_pair(t as u32, s as u32), false, s2, u);
                lemma_key_halves(pack_pair(t as u32, s as u32), t as u32, s as u32);
                lemma_key_halves(pack_pair(u as u32, s2 as u32), u as u32, s2 as u32);
            }
            if wires_linked(view, ps, s, t) {
                assert(keyed_link(view, ps, pack_pair(t as u32, s as u32), false, s, t));
            }
        }
    }
    (dependent_offsets, dependents, predecessor_offsets, predecessors)
}

} // verus!
