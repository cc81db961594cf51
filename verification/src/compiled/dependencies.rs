//! The position dependency index of a network: for each block position, the
//! nodes that read it, once each and in ascending order.

use vstd::prelude::*;

use crate::compiled::network::{NetworkNode, NetworkNodeId};
use crate::position::BlockPos;
use crate::posmap::{lemma_pack_injective, pack, PositionMap};

verus! {

/// The nodes listed under `pos`, none when the position has no entry.
pub open spec fn listed_at(index: &PositionMap<Vec<NetworkNodeId>>, pos: BlockPos) -> Seq<NetworkNodeId> {
    if index.has(pos) {
        index.at(pos)@
    } else {
        Seq::empty()
    }
}

/// Whether node ids are strictly ascending.
pub open spec fn ids_ascending(ids: Seq<NetworkNodeId>) -> bool {
    forall|i: int, j: int| 0 <= i < j < ids.len() ==> ids[i].0 < ids[j].0
}

/// Whether every list of the index is strictly ascending.
pub open spec fn index_ascending(index: &PositionMap<Vec<NetworkNodeId>>) -> bool {
    forall|pos: BlockPos| #[trigger] ids_ascending(listed_at(index, pos))
}

/// Whether node `id` depends on position `pos`: the pair is among the
/// recorded dependencies, or `pos` is the node's own position or its
/// comparator's far input.
pub open spec fn depends_on(
    recorded: Seq<(BlockPos, NetworkNodeId)>,
    nodes: Seq<NetworkNode>,
    pos: BlockPos,
    id: NetworkNodeId,
) -> bool {
    ||| recorded.contains((pos, id))
    ||| exists|i: int|
        #![trigger nodes[i]]
        0 <= i < nodes.len() && nodes[i].id == id && (nodes[i].pos == pos || nodes[i].comparator_far_input == Some(
            pos,
        ))
}

/// Adds `id` to ascending ids, in its place, unless it is there.
pub(crate) fn insert_id(ids: &mut Vec<NetworkNodeId>, id: NetworkNodeId)
    requires
        ids_ascending(old(ids)@),
    ensures
        ids_ascending(final(ids)@),
        forall|x: NetworkNodeId| final(ids)@.contains(x) <==> (old(ids)@.contains(x) || x == id),
{
    let mut i: usize = 0;
    while i < ids.len() && ids[i].0 < id.0
        invariant
            i <= ids@.len(),
            ids@ == old(ids)@,
            forall|j: int| 0 <= j < i ==> (#[trigger] ids@[j]).0 < id.0,
        decreases ids@.len() - i,
    {
        i += 1;
    }
    if i < ids.len() && ids[i].0 == id.0 {
        proof {
            assert(ids@[i as int] == id);
            assert(ids@.contains(id));
        }
        return;
    }
    let ghost before = ids@;
    ids.insert(i, id);
    proof {
        assert(i < before.len() ==> id.0 < before[i as int].0);
        assert forall|a: int, b: int| 0 <= a < b < ids@.len() implies ids@[a].0 < ids@[b].0 by {
            if b < i {
            } else if b == i {
                assert(ids@[a] == before[a]);
            } else if a < i {
                assert(ids@[a] == before[a]);
                assert(ids@[b] == before[b - 1]);
                if b - 1 > i {
                    assert(before[i as int].0 < before[b - 1].0);
                }
            } else if a == i {
                assert(ids@[b] == before[b - 1]);
                if b - 1 > i {
                    assert(before[i as int].0 < before[b - 1].0);
                }
            } else {
                assert(ids@[a] == before[a - 1]);
                assert(ids@[b] == before[b - 1]);
            }
        }
        assert forall|x: NetworkNodeId| ids@.contains(x) <==> (before.contains(x) || x == id) by {
            if ids@.contains(x) {
                let k = choose|k: int| 0 <= k < ids@.len() && ids@[k] == x;
                if k < i {
                    assert(before[k] == x);
                } else if k > i {
                    assert(before[k - 1] == x);
                }
            }
            if before.contains(x) {
                let k = choose|k: int| 0 <= k < before.len() && before[k] == x;
                if k < i {
                    assert(ids@[k] == x);
                } else {
                    assert(ids@[k + 1] == x);
                }
            }
            if x == id {
                assert(ids@[i as int] == x);
            }
        }
        assert(before == old(ids)@);
        assert(forall|x: NetworkNodeId| ids@.contains(x) <==> (old(ids)@.contains(x) || x == id));
    }
}

/// Lists node `id` under `pos`.
fn add_dependency(index: &mut PositionMap<Vec<NetworkNodeId>>, pos: BlockPos, id: NetworkNodeId)
    requires
        index_ascending(old(index)),
    ensures
        index_ascending(final(index)),
        forall|p: BlockPos, x: NetworkNodeId|
            #[trigger] listed_at(final(index), p).contains(x) <==> (listed_at(old(index), p).contains(x) || (p
                == pos && x == id)),
{
    let ghost start = listed_at(index, pos);
    let mut ids = match index.remove(pos) {
        Some(ids) => ids,
        None => Vec::new(),
    };
    proof {
        assert(ids_ascending(listed_at(old(index), pos)));
        assert(ids@ == start);
    }
    insert_id(&mut ids, id);
    let ghost inserted = ids@;
    index.insert(pos, ids);
    proof {
        assert(listed_at(index, pos) == inserted);
        assert forall|p: BlockPos| p != pos implies listed_at(index, p) == listed_at(old(index), p) by {
            lemma_pack_injective(p, pos);
        }
        assert forall|p: BlockPos| #[trigger] ids_ascending(listed_at(index, p)) by {
            if p != pos {
                assert(ids_ascending(listed_at(old(index), p)));
            }
        }
        assert forall|p: BlockPos, x: NetworkNodeId|
            #[trigger] listed_at(index, p).contains(x) <==> (listed_at(old(index), p).contains(x) || (p == pos
                && x == id)) by {
            if p != pos {
                assert(listed_at(index, p) == listed_at(old(index), p));
            }
        }
    }
}

/// The position dependency index: every recorded dependency, and each node
/// under its own position and its comparator's far input.
pub fn index_dependencies(recorded: &Vec<(BlockPos, NetworkNodeId)>, nodes: &Vec<NetworkNode>) -> (index: PositionMap<
    Vec<NetworkNodeId>,
>)
    ensures
        index_ascending(&index),
        forall|pos: BlockPos, id: NetworkNodeId|
            #[trigger] listed_at(&index, pos).contains(id) <==> depends_on(recorded@, nodes@, pos, id),
{
    let mut index: PositionMap<Vec<NetworkNodeId>> = PositionMap::new();
    proof {
        assert forall|p: BlockPos| #[trigger] ids_ascending(listed_at(&index, p)) by {
            assert(!index.has(p));
        }
    }
    let mut k: usize = 0;
    while k < recorded.len()
        invariant
            k <= recorded@.len(),
            index_ascending(&index),
            forall|pos: BlockPos, id: NetworkNodeId|
                #[trigger] listed_at(&index, pos).contains(id) <==> recorded@.take(k as int).contains((pos, id)),
        decreases recorded@.len() - k,
    {
        let (pos, id) = recorded[k];
        let ghost prior = index;
        add_dependency(&mut index, pos, id);
        proof {
            let taken = recorded@.take(k + 1);
            assert(taken =~= recorded@.take(k as int).push((pos, id)));
            assert forall|p: BlockPos, x: NetworkNodeId|
                #[trigger] listed_at(&index, p).contains(x) <==> taken.contains((p, x)) by {
                if taken.contains((p, x)) {
                    let j = choose|j: int| 0 <= j < taken.len() && taken[j] == (p, x);
                    if j < k {
                        assert(recorded@.take(k as int)[j] == (p, x));
                        assert(listed_at(&prior, p).contains(x));
                    }
                }
                if listed_at(&prior, p).contains(x) {
                    let j = choose|j: int| 0 <= j < k && recorded@.take(k as int)[j] == (p, x);
                    assert(taken[j] == (p, x));
                }
                if p == pos && x == id {
                    assert(taken[k as int] == (p, x));
                }
            }
        }
        k += 1;
    }
    proof {
        assert(recorded@.take(recorded@.len() as int) =~= recorded@);
    }
    let mut i: usize = 0;
    while i < nodes.len()
        invariant
            i <= nodes@.len(),
            index_ascending(&index),
            forall|pos: BlockPos, id: NetworkNodeId|
                #[trigger] listed_at(&index, pos).contains(id) <==> (recorded@.contains((pos, id)) || exists|j: int|
                    #![trigger nodes@[j]]
                    0 <= j < i && nodes@[j].id == id && (nodes@[j].pos == pos || nodes@[j].comparator_far_input
                        == Some(pos))),
        decreases nodes@.len() - i,
    {
        let node = nodes[i];
        let ghost first = index;
        add_dependency(&mut index, node.pos, node.id);
        let ghost second = index;
        match node.comparator_far_input {
            Some(far) => {
                add_dependency(&mut index, far, node.id);
            },
            None => {},
        }
        proof {
            assert forall|p: BlockPos, x: NetworkNodeId|
                #[trigger] listed_at(&index, p).contains(x) <==> (recorded@.contains((p, x)) || exists|j: int|
                    #![trigger nodes@[j]]
                    0 <= j < i + 1 && nodes@[j].id == x && (nodes@[j].pos == p || nodes@[j].comparator_far_input
                        == Some(p))) by {
                assert(listed_at(&second, p).contains(x) <==> (listed_at(&first, p).contains(x) || (p == node.pos
                    && x == node.id)));
                if exists|j: int|
                    #![trigger nodes@[j]]
                    0 <= j < i && nodes@[j].id == x && (nodes@[j].pos == p || nodes@[j].comparator_far_input == Some(
                        p,
                    )) {
                    let j = choose|j: int|
                        #![trigger nodes@[j]]
                        0 <= j < i && nodes@[j].id == x && (nodes@[j].pos == p || nodes@[j].comparator_far_input
                            == Some(p));
                    assert(0 <= j < i + 1);
                }
                if (p == node.pos || node.comparator_far_input == Some(p)) && x == node.id {
                    assert(nodes@[i as int] == node);
                }
                if exists|j: int|
                    #![trigger nodes@[j]]
                    0 <= j < i + 1 && nodes@[j].id == x && (nodes@[j].pos == p || nodes@[j].comparator_far_input
                        == Some(p)) {
                    let j = choose|j: int|
                        #![trigger nodes@[j]]
                        0 <= j < i + 1 && nodes@[j].id == x && (nodes@[j].pos == p || nodes@[j].comparator_far_input
                            == Some(p));
                    if j == i {
                        assert(nodes@[j] == node);
                    }
                }
            }
        }
        i += 1;
    }
    index
}

} // verus!
