//! The compiled node graph: nodes in generational slots, an index from each
//! position to its node, and a reverse index from each position to the nodes
//! that read it, kept sorted and exact through every change.

use vstd::prelude::*;

use crate::compiled::frontend::{NodeKind, TopologySignature};
use crate::compiled::passes::{insert_position, optimize_dependencies, positions_ascending};
use crate::position::{BlockPos, BlockStateId};
use crate::posmap::{lemma_pack_injective, pack, PositionMap};

verus! {

/// A node's handle: its slot and the generation of the slot when the node
/// was placed there.
#[derive(Clone, Copy, Debug, PartialEq, Eq, Structural, Hash)]
pub struct NodeId {
    pub slot: u32,
    pub generation: u32,
}

impl NodeId {
    /// The handle of slot `slot` in generation `generation`.
    pub fn new(slot: u32, generation: u32) -> (id: NodeId)
        ensures
            id == (NodeId { slot, generation }),
    {
        NodeId { slot, generation }
    }
}

/// The order of handles: by slot, then generation.
pub open spec fn id_lt(a: NodeId, b: NodeId) -> bool {
    a.slot < b.slot || (a.slot == b.slot && a.generation < b.generation)
}

/// Whether handles are strictly ascending.
pub open spec fn ids_sorted(ids: Seq<NodeId>) -> bool {
    forall|i: int, j: int| 0 <= i < j < ids.len() ==> id_lt(ids[i], ids[j])
}

/// A compiled node: its position, state, topology signature and the
/// positions it reads, ascending and once each.
#[derive(Debug)]
pub struct GraphNode {
    pub pos: BlockPos,
    pub state: BlockStateId,
    pub signature: TopologySignature,
    pub dependencies: Vec<BlockPos>,
}

/// A slot: its generation, and the node it holds, if any.
#[derive(Debug)]
pub struct NodeSlot {
    pub generation: u32,
    pub node: Option<GraphNode>,
}

/// The handles listed under `pos` in a reverse index.
pub open spec fn listed(index: &PositionMap<Vec<NodeId>>, pos: BlockPos) -> Seq<NodeId> {
    if index.has(pos) {
        index.at(pos)@
    } else {
        Seq::empty()
    }
}

/// Whether every list of a reverse index is sorted and none is empty.
pub open spec fn index_shaped(index: &PositionMap<Vec<NodeId>>) -> bool {
    &&& forall|pos: BlockPos| #[trigger] ids_sorted(listed(index, pos))
    &&& forall|pos: BlockPos| index.has(pos) ==> #[trigger] index.at(pos)@.len() > 0
}

/// Adds `id` to sorted handles, in its place, unless it is there.
fn insert_handle(ids: &mut Vec<NodeId>, id: NodeId)
    requires
        ids_sorted(old(ids)@),
    ensures
        ids_sorted(final(ids)@),
        forall|x: NodeId| final(ids)@.contains(x) <==> (old(ids)@.contains(x) || x == id),
        final(ids)@.len() > 0,
{
    let mut i: usize = 0;
    while i < ids.len() && (ids[i].slot < id.slot || (ids[i].slot == id.slot && ids[i].generation < id.generation))
        invariant
            i <= ids@.len(),
            ids@ == old(ids)@,
            forall|j: int| 0 <= j < i ==> id_lt(#[trigger] ids@[j], id),
        decreases ids@.len() - i,
    {
        i += 1;
    }
    if i < ids.len() && ids[i].slot == id.slot && ids[i].generation == id.generation {
        proof {
            assert(ids@[i as int] == id);
            assert(ids@.contains(id));
        }
        return;
    }
    let ghost before = ids@;
    ids.insert(i, id);
    proof {
        assert(i < before.len() ==> id_lt(id, before[i as int]));
        assert forall|a: int, b: int| 0 <= a < b < ids@.len() implies id_lt(ids@[a], ids@[b]) by {
            if b < i {
            } else if b == i {
                assert(ids@[a] == before[a]);
            } else if a < i {
                assert(ids@[a] == before[a]);
                assert(ids@[b] == before[b - 1]);
                if b - 1 > i {
                    assert(id_lt(before[i as int], before[b - 1]));
                }
            } else if a == i {
                assert(ids@[b] == before[b - 1]);
                if b - 1 > i {
                    assert(id_lt(before[i as int], before[b - 1]));
                }
            } else {
                assert(ids@[a] == before[a - 1]);
                assert(ids@[b] == before[b - 1]);
            }
        }
        assert forall|x: NodeId| ids@.contains(x) <==> (before.contains(x) || x == id) by {
            if ids@.contains(x) {
                let k = choose|k: int| 0 <= k < ids@.len() && ids@[k] == x;
                if k < i {
                    assert(before[k] == x);
                } else if k > i {
                    assert(before[k - 1] == x);
                }
            }
            if before.contains(x) {
                let k = choose|k: int| 0 <= k < before.len() && before[k] == x;
                if k < i {
                    assert(ids@[k] == x);
                } else {
                    assert(ids@[k + 1] == x);
                }
            }
            if x == id {
                assert(ids@[i as int] == x);
            }
        }
        assert(before == old(ids)@);
        assert(forall|x: NodeId| ids@.contains(x) <==> (old(ids)@.contains(x) || x == id));
    }
}

/// Takes `id` out of sorted handles, if it is there.
fn remove_handle(ids: &mut Vec<NodeId>, id: NodeId)
    requires
        ids_sorted(old(ids)@),
    ensures
        ids_sorted(final(ids)@),
        forall|x: NodeId| final(ids)@.contains(x) <==> (old(ids)@.contains(x) && x != id),
{
    let mut i: usize = 0;
    while i < ids.len()
        invariant
            i <= ids@.len(),
            ids@ == old(ids)@,
            ids_sorted(old(ids)@),
            forall|j: int| 0 <= j < i ==> #[trigger] ids@[j] != id,
        decreases ids@.len() - i,
    {
        if ids[i].slot == id.slot && ids[i].generation == id.generation {
            let ghost before = ids@;
            ids.remove(i);
            proof {
                assert(before[i as int] == id);
                assert forall|a: int, b: int| 0 <= a < b < ids@.len() implies id_lt(ids@[a], ids@[b]) by {
                    if a < i && b < i {
                        assert(ids@[a] == before[a] && ids@[b] == before[b]);
                    } else if a < i {
                        assert(ids@[a] == before[a] && ids@[b] == before[b + 1]);
                    } else {
                        assert(ids@[a] == before[a + 1] && ids@[b] == before[b + 1]);
                    }
                }
                assert forall|x: NodeId| ids@.contains(x) <==> (before.contains(x) && x != id) by {
                    if ids@.contains(x) {
                        let k = choose|k: int| 0 <= k < ids@.len() && ids@[k] == x;
                        if k < i {
                            assert(before[k] == x);
                        } else {
                            assert(before[k + 1] == x);
                            assert(id_lt(before[i as int], before[k + 1]));
                        }
                    }
                    if before.contains(x) && x != id {
                        let k = choose|k: int| 0 <= k < before.len() && before[k] == x;
                        if k < i {
                            assert(ids@[k] == x);
                        } else {
                            assert(k != i);
                            assert(ids@[k - 1] == x);
                        }
                    }
                }
            }
            return;
        }
        i += 1;
    }
}

/// Lists `id` under every position of `positions`.
fn index_add(index: &mut PositionMap<Vec<NodeId>>, id: NodeId, positions: &[BlockPos])
    requires
        index_shaped(old(index)),
    ensures
        index_shaped(final(index)),
        forall|pos: BlockPos, x: NodeId|
            #[trigger] listed(final(index), pos).contains(x) <==> (listed(old(index), pos).contains(x) || (x == id
                && positions@.contains(pos))),
{
    let mut k: usize = 0;
    while k < positions.len()
        invariant
            k <= positions@.len(),
            index_shaped(index),
            forall|pos: BlockPos, x: NodeId|
                #[trigger] listed(index, pos).contains(x) <==> (listed(old(index), pos).contains(x) || (x == id
                    && positions@.take(k as int).contains(pos))),
        decreases positions@.len() - k,
    {
        let pos = positions[k];
        let ghost prior = *index;
        let mut ids = match index.remove(pos) {
            Some(ids) => ids,
            None => Vec::new(),
        };
        proof {
            assert(ids_sorted(listed(&prior, pos)));
            assert(ids@ == listed(&prior, pos));
        }
        insert_handle(&mut ids, id);
        let ghost inserted = ids@;
        index.insert(pos, ids);
        proof {
            assert(listed(index, pos) == inserted);
            assert forall|p: BlockPos| p != pos implies listed(index, p) == listed(&prior, p) && index.has(p) == prior.has(p) by {
                lemma_pack_injective(p, pos);
            }
            assert forall|p: BlockPos| #[trigger] ids_sorted(listed(index, p)) by {
                if p != pos {
                    assert(ids_sorted(listed(&prior, p)));
                }
            }
            assert forall|p: BlockPos| index.has(p) implies #[trigger] index.at(p)@.len() > 0 by {
                if p != pos {
                    assert(prior.has(p));
                    assert(prior.at(p)@.len() > 0);
                }
            }
            let taken = positions@.take(k + 1);
            assert(taken =~= positions@.take(k as int).push(pos));
            assert forall|p: BlockPos, x: NodeId|
                #[trigger] listed(index, p).contains(x) <==> (listed(old(index), p).contains(x) || (x == id
                    && taken.contains(p))) by {
                assert(taken.contains(p) <==> (positions@.take(k as int).contains(p) || p == pos)) by {
                    if taken.contains(p) {
                        let j = choose|j: int| 0 <= j < taken.len() && taken[j] == p;
                        if j < k {
                            assert(positions@.take(k as int)[j] == p);
                        }
                    }
                    if positions@.take(k as int).contains(p) {
                        let j = choose|j: int| 0 <= j < k && positions@.take(k as int)[j] == p;
                        assert(taken[j] == p);
                    }
                    if p == pos {
                        assert(taken[k as int] == p);
                    }
                }
                if p != pos {
                    assert(listed(index, p) == listed(&prior, p));
                }
            }
        }
        k += 1;
    }
    proof {
        assert(positions@.take(positions@.len() as int) =~= positions@);
    }
}

/// Takes `id` off the list of every position of `positions`, dropping the
/// lists that empty.
fn index_remove(index: &mut PositionMap<Vec<NodeId>>, id: NodeId, positions: &[BlockPos])
    requires
        index_shaped(old(index)),
    ensures
        index_shaped(final(index)),
        forall|pos: BlockPos, x: NodeId|
            #[trigger] listed(final(index), pos).contains(x) <==> (listed(old(index), pos).contains(x) && !(x == id
                && positions@.contains(pos))),
{
    let mut k: usize = 0;
    while k < positions.len()
        invariant
            k <= positions@.len(),
            index_shaped(index),
            forall|pos: BlockPos, x: NodeId|
                #[trigger] listed(index, pos).contains(x) <==> (listed(old(index), pos).contains(x) && !(x == id
                    && positions@.take(k as int).contains(pos))),
        decreases positions@.len() - k,
    {
        let pos = positions[k];
        let ghost prior = *index;
        match index.remove(pos) {
            Some(mut ids) => {
                proof {
                    assert(ids_sorted(listed(&prior, pos)));
                    assert(ids@ == listed(&prior, pos));
                }
                remove_handle(&mut ids, id);
                if ids.len() > 0 {
                    let ghost kept = ids@;
                    index.insert(pos, ids);
                    proof {
                        assert(listed(index, pos) == kept);
                    }
                } else {
                    proof {
                        assert(listed(index, pos) =~= Seq::<NodeId>::empty());
                        assert forall|x: NodeId| !(listed(&prior, pos).contains(x) && x != id) by {
                            assert(!ids@.contains(x));
                        }
                    }
                }
            },
            None => {
                proof {
                    assert(listed(index, pos) =~= Seq::<NodeId>::empty());
                    assert(listed(&prior, pos) =~= Seq::<NodeId>::empty());
                }
            },
        }
        proof {
            assert forall|x: NodeId| listed(index, pos).contains(x) <==> (listed(&prior, pos).contains(x) && x != id) by {
                if listed(index, pos).len() == 0 {
                    assert(!listed(index, pos).contains(x));
                }
            }
        }
        proof {
            assert forall|p: BlockPos| p != pos implies listed(index, p) == listed(&prior, p) && index.has(p) == prior.has(p) by {
                lemma_pack_injective(p, pos);
            }
            assert forall|p: BlockPos| #[trigger] ids_sorted(listed(index, p)) by {
                if p != pos {
                    assert(ids_sorted(listed(&prior, p)));
                }
            }
            assert forall|p: BlockPos| index.has(p) implies #[trigger] index.at(p)@.len() > 0 by {
                if p != pos {
                    assert(prior.has(p));
                    assert(prior.at(p)@.len() > 0);
                }
            }
            let taken = positions@.take(k + 1);
            assert(taken =~= positions@.take(k as int).push(pos));
            assert forall|p: BlockPos, x: NodeId|
                #[trigger] listed(index, p).contains(x) <==> (listed(old(index), p).contains(x) && !(x == id
                    && taken.contains(p))) by {
                assert(taken.contains(p) <==> (positions@.take(k as int).contains(p) || p == pos)) by {
                    if taken.contains(p) {
                        let j = choose|j: int| 0 <= j < taken.len() && taken[j] == p;
                        if j < k {
                            assert(positions@.take(k as int)[j] == p);
                        }
                    }
                    if positions@.take(k as int).contains(p) {
                        let j = choose|j: int| 0 <= j < k && positions@.take(k as int)[j] == p;
                        assert(taken[j] == p);
                    }
                    if p == pos {
                        assert(taken[k as int] == p);
                    }
                }
                if p != pos {
                    assert(listed(index, p) == listed(&prior, p));
                } else {
                    assert(listed(index, pos).contains(x) <==> (listed(&prior, pos).contains(x) && x != id));
                    assert(listed(&prior, pos).contains(x) <==> (listed(old(index), pos).contains(x) && !(x == id
                        && positions@.take(k as int).contains(pos))));
                    assert(taken.contains(pos));
                }
            }
        }
        k += 1;
    }
    proof {
        assert(positions@.take(positions@.len() as int) =~= positions@);
    }
}

/// Whether slot `id.slot` exists, is in generation `id.generation` and holds a node.
pub open spec fn holds(slots: Seq<NodeSlot>, id: NodeId) -> bool {
    &&& id.slot < slots.len()
    &&& slots[id.slot as int].generation == id.generation
    &&& slots[id.slot as int].node is Some
}

/// The node in the slot of `id`.
pub open spec fn held(slots: Seq<NodeSlot>, id: NodeId) -> GraphNode {
    slots[id.slot as int].node->0
}

/// The number of dependencies a slot contributes: those of its node, if any.
pub open spec fn slot_edges(slot: NodeSlot) -> nat {
    match slot.node {
        Some(node) => node.dependencies@.len(),
        None => 0,
    }
}

/// One for a slot with a node, zero for an empty one.
pub open spec fn slot_nodes(slot: NodeSlot) -> nat {
    if slot.node is Some {
        1
    } else {
        0
    }
}

/// The dependencies of all nodes, counted over the slots.
pub open spec fn edge_sum(slots: Seq<NodeSlot>) -> nat
    decreases slots.len(),
{
    if slots.len() == 0 {
        0
    } else {
        edge_sum(slots.drop_last()) + slot_edges(slots.last())
    }
}

/// The number of slots with a node.
pub open spec fn node_sum(slots: Seq<NodeSlot>) -> nat
    decreases slots.len(),
{
    if slots.len() == 0 {
        0
    } else {
        node_sum(slots.drop_last()) + slot_nodes(slots.last())
    }
}

/// Replacing one slot changes both sums by the difference of the two slots.
proof fn lemma_sums_update(slots: Seq<NodeSlot>, i: int, slot: NodeSlot)
    requires
        0 <= i < slots.len(),
    ensures
        edge_sum(slots.update(i, slot)) + slot_edges(slots[i]) == edge_sum(slots) + slot_edges(slot),
        node_sum(slots.update(i, slot)) + slot_nodes(slots[i]) == node_sum(slots) + slot_nodes(slot),
    decreases slots.len(),
{
    let updated = slots.update(i, slot);
    if i == slots.len() - 1 {
        assert(updated.drop_last() =~= slots.drop_last());
    } else {
        assert(updated.drop_last() =~= slots.drop_last().update(i, slot));
        lemma_sums_update(slots.drop_last(), i, slot);
    }
}

/// Appending a slot adds its counts.
proof fn lemma_sums_push(slots: Seq<NodeSlot>, slot: NodeSlot)
    ensures
        edge_sum(slots.push(slot)) == edge_sum(slots) + slot_edges(slot),
        node_sum(slots.push(slot)) == node_sum(slots) + slot_nodes(slot),
{
    assert(slots.push(slot).drop_last() =~= slots);
}

/// Whether node `id` stands at `pos` or reads it.
pub open spec fn reads_from(slots: Seq<NodeSlot>, id: NodeId, pos: BlockPos) -> bool {
    holds(slots, id) && (held(slots, id).pos == pos || held(slots, id).dependencies@.contains(pos))
}

/// The compiled node graph: nodes in generational slots, the empty slots
/// kept for reuse, the node of each position, the number of dependency
/// edges, and for each position the ascending handles of the nodes that
/// stand at it or read it.
#[derive(Debug)]
pub struct CompiledGraph {
    slots: Vec<NodeSlot>,
    free_slots: Vec<u32>,
    positions: PositionMap<NodeId>,
    edge_count: usize,
    reverse_dependencies: PositionMap<Vec<NodeId>>,
}

impl CompiledGraph {
    /// Whether `id` names a node of the graph.
    pub closed spec fn live(&self, id: NodeId) -> bool {
        holds(self.slots@, id)
    }

    /// The node that `id` names.
    pub closed spec fn node_of(&self, id: NodeId) -> GraphNode {
        held(self.slots@, id)
    }

    /// The handle of the node at `pos`, if any.
    pub closed spec fn id_at(&self, pos: BlockPos) -> Option<NodeId> {
        if self.positions.has(pos) {
            Some(self.positions.at(pos))
        } else {
            None
        }
    }

    /// The handles listed under `pos` in the reverse dependency index.
    pub closed spec fn listed_at(&self, pos: BlockPos) -> Seq<NodeId> {
        listed(&self.reverse_dependencies, pos)
    }

    /// Whether the reverse dependency index has an entry for `pos`.
    pub closed spec fn indexed(&self, pos: BlockPos) -> bool {
        self.reverse_dependencies.has(pos)
    }

    /// The number of slots.
    pub closed spec fn slot_count(&self) -> nat {
        self.slots@.len()
    }

    /// The generation of slot `slot`.
    pub closed spec fn generation_of(&self, slot: int) -> u32 {
        self.slots@[slot].generation
    }

    /// The empty slots, the last one to be reused first.
    pub closed spec fn free_list(&self) -> Seq<u32> {
        self.free_slots@
    }

    /// The number of nodes.
    pub closed spec fn node_total(&self) -> nat {
        node_sum(self.slots@)
    }

    /// The number of dependency edges: the dependencies of all nodes.
    pub closed spec fn edge_total(&self) -> nat {
        edge_sum(self.slots@)
    }

    /// Whether node `id` stands at `pos` or reads it.
    pub open spec fn reads(&self, id: NodeId, pos: BlockPos) -> bool {
        self.live(id) && (self.node_of(id).pos == pos || self.node_of(id).dependencies@.contains(pos))
    }

    /// The graph's invariant: slot numbers fit in `u32`; each position's
    /// handle names a node at that position and each node's position gives
    /// its handle; the empty slots are listed once each; each node's
    /// dependencies are ascending; the reverse index lists under each
    /// position exactly the nodes that stand at it or read it, ascending,
    /// with no empty list; the edge count is the sum of the dependency lists;
    /// and the position index has one entry per node.
    pub closed spec fn valid(&self) -> bool {
        let slots = self.slots@;
        &&& slots.len() <= u32::MAX
        &&& forall|pos: BlockPos| #[trigger] self.positions.has(pos) ==> holds(slots, self.positions.at(pos))
            && held(slots, self.positions.at(pos)).pos == pos
        &&& forall|id: NodeId| #[trigger] holds(slots, id) ==> self.positions.has(held(slots, id).pos)
            && self.positions.at(held(slots, id).pos) == id
        &&& forall|i: int| 0 <= i < self.free_slots@.len() ==> #[trigger] self.free_slots@[i] < slots.len()
            && slots[self.free_slots@[i] as int].node is None
        &&& forall|i: int, j: int| 0 <= i < j < self.free_slots@.len() ==> self.free_slots@[i]
            != self.free_slots@[j]
        &&& forall|id: NodeId| #[trigger] holds(slots, id) ==> positions_ascending(held(slots, id).dependencies@)
        &&& index_shaped(&self.reverse_dependencies)
        &&& forall|pos: BlockPos, id: NodeId| #[trigger] listed(&self.reverse_dependencies, pos).contains(id)
            <==> reads_from(slots, id, pos)
        &&& self.edge_count == edge_sum(slots)
        &&& self.positions.keyed().dom().finite()
        &&& self.positions.size() == node_sum(slots)
    }

    /// An empty graph.
    pub fn new() -> (graph: CompiledGraph)
        ensures
            graph.valid(),
            graph.slot_count() == 0,
            graph.free_list() == Seq::<u32>::empty(),
            forall|pos: BlockPos| graph.id_at(pos) is None && !graph.indexed(pos),
            graph.node_total() == 0,
            graph.edge_total() == 0,
    {
        let graph = CompiledGraph {
            slots: Vec::new(),
            free_slots: Vec::new(),
            positions: PositionMap::new(),
            edge_count: 0,
            reverse_dependencies: PositionMap::new(),
        };
        proof {
            assert(graph.positions.keyed().dom() =~= Set::<u128>::empty());
        }
        graph
    }

    /// The handle of the node at `pos`, if any.
    pub fn node_id(&self, pos: BlockPos) -> (result: Option<NodeId>)
        ensures
            result == self.id_at(pos),
    {
        match self.positions.get(pos) {
            Some(id) => Some(*id),
            None => None,
        }
    }

    /// The number of nodes.
    pub fn node_count(&self) -> (count: usize)
        requires
            self.valid(),
        ensures
            count == self.node_total(),
    {
        self.positions.len()
    }

    /// The number of dependency edges.
    pub fn edge_count(&self) -> (count: usize)
        requires
            self.valid(),
        ensures
            count == self.edge_total(),
    {
        self.edge_count
    }

    /// The node that `id` names, if it still names one.
    pub fn node(&self, id: NodeId) -> (result: Option<&GraphNode>)
        ensures
            result == (if self.live(id) {
                Some(&self.node_of(id))
            } else {
                None::<&GraphNode>
            }),
    {
        let slot = id.slot as usize;
        if slot < self.slots.len() && self.slots[slot].generation == id.generation {
            match &self.slots[slot].node {
                Some(node) => Some(node),
                None => None,
            }
        } else {
            None
        }
    }

    /// Whether the node at `pos` is a wire.
    pub fn is_wire(&self, pos: BlockPos) -> (result: bool)
        ensures
            result == (match self.id_at(pos) {
                Some(id) => self.live(id) && self.node_of(id).signature.node_kind == NodeKind::Wire,
                None => false,
            }),
    {
        match self.node_id(pos) {
            Some(id) => match self.node(id) {
                Some(node) => node.signature.node_kind == NodeKind::Wire,
                None => false,
            },
            None => false,
        }
    }

    /// The positions of the nodes that stand at `pos` or read it, in the
    /// order of their handles.
    pub fn dependents(&self, pos: BlockPos) -> (result: Vec<BlockPos>)
        requires
            self.valid(),
        ensures
            result@ == self.listed_at(pos).map_values(|id: NodeId| self.node_of(id).pos),
            forall|p: BlockPos| #[trigger] result@.contains(p) <==> (match self.id_at(p) {
                Some(id) => p == pos || self.node_of(id).dependencies@.contains(pos),
                None => false,
            }),
    {
        let mut result: Vec<BlockPos> = Vec::new();
        let ghost ids = self.listed_at(pos);
        match self.reverse_dependencies.get(pos) {
            Some(list) => {
                let mut k: usize = 0;
                while k < list.len()
                    invariant
                        self.valid(),
                        ids == self.listed_at(pos),
                        list@ == ids,
                        k <= list@.len(),
                        result@ == ids.take(k as int).map_values(|id: NodeId| self.node_of(id).pos),
                    decreases list@.len() - k,
                {
                    let id = list[k];
                    proof {
                        assert(ids.contains(id));
                        assert(listed(&self.reverse_dependencies, pos).contains(id));
                    }
                    match self.node(id) {
                        Some(node) => {
                            result.push(node.pos);
                        },
                        None => {},
                    }
                    proof {
                        assert(ids.take(k + 1) =~= ids.take(k as int).push(id));
                        assert(ids.take(k + 1).map_values(|id: NodeId| self.node_of(id).pos)
                            =~= ids.take(k as int).map_values(|id: NodeId| self.node_of(id).pos).push(self.node_of(id).pos));
                    }
                    k += 1;
                }
                proof {
                    assert(ids.take(list@.len() as int) =~= ids);
                }
            },
            None => {
                proof {
                    assert(ids =~= Seq::<NodeId>::empty());
                    assert(result@ =~= ids.map_values(|id: NodeId| self.node_of(id).pos));
                }
            },
        }
        proof {
            let mapped = ids.map_values(|id: NodeId| self.node_of(id).pos);
            assert forall|p: BlockPos| #[trigger] result@.contains(p) <==> (match self.id_at(p) {
                Some(id) => p == pos || self.node_of(id).dependencies@.contains(pos),
                None => false,
            }) by {
                if result@.contains(p) {
                    let k = choose|k: int| 0 <= k < mapped.len() && mapped[k] == p;
                    let id = ids[k];
                    assert(listed(&self.reverse_dependencies, pos).contains(id));
                    assert(holds(self.slots@, id));
                }
                match self.id_at(p) {
                    Some(id) => {
                        if p == pos || self.node_of(id).dependencies@.contains(pos) {
                            assert(holds(self.slots@, id));
                            assert(reads_from(self.slots@, id, pos));
                            assert(ids.contains(id));
                            let k = choose|k: int| 0 <= k < ids.len() && ids[k] == id;
                            assert(mapped[k] == p);
                        }
                    },
                    None => {},
                }
            }
        }
        result
    }
}

impl CompiledGraph {
    /// The handle the next inserted node gets: that of the last empty slot,
    /// or of a new slot after the others.
    pub open spec fn next_id(&self) -> NodeId {
        if self.free_list().len() > 0 {
            let slot = self.free_list().last();
            NodeId { slot, generation: self.generation_of(slot as int) }
        } else {
            NodeId { slot: self.slot_count() as u32, generation: 0 }
        }
    }

    /// Places a node with no dependencies at `pos`, which holds none, in the
    /// last empty slot or a new one, and lists it under its own position.
    fn insert_node(&mut self, pos: BlockPos, state: BlockStateId, signature: TopologySignature) -> (id: NodeId)
        requires
            old(self).valid(),
            old(self).id_at(pos) is None,
            old(self).free_list().len() > 0 || old(self).slot_count() < u32::MAX,
        ensures
            final(self).valid(),
            id == old(self).next_id(),
            !old(self).live(id),
            final(self).live(id),
            final(self).node_of(id) == (GraphNode { pos, state, signature, dependencies: final(self).node_of(id).dependencies }),
            final(self).node_of(id).dependencies@ == Seq::<BlockPos>::empty(),
            final(self).id_at(pos) == Some(id),
            forall|p: BlockPos| p != pos ==> #[trigger] final(self).id_at(p) == old(self).id_at(p),
            forall|x: NodeId| x != id ==> (#[trigger] final(self).live(x) == old(self).live(x)),
            forall|x: NodeId| x != id && old(self).live(x) ==> #[trigger] final(self).node_of(x) == old(self).node_of(x),
            final(self).edge_total() == old(self).edge_total(),
            final(self).node_total() == old(self).node_total() + 1,
            final(self).slot_count() == (if old(self).free_list().len() > 0 {
                old(self).slot_count()
            } else {
                old(self).slot_count() + 1
            }),
            final(self).free_list() == (if old(self).free_list().len() > 0 {
                old(self).free_list().drop_last()
            } else {
                old(self).free_list()
            }),
            forall|i: int| 0 <= i < old(self).slot_count() ==> #[trigger] final(self).generation_of(i)
                == old(self).generation_of(i),
    {
        let ghost before = self.slots@;
        let ghost free_before = self.free_slots@;
        let slot: u32 = match self.free_slots.pop() {
            Some(slot) => slot,
            None => self.slots.len() as u32,
        };
        if slot as usize == self.slots.len() {
            self.slots.push(NodeSlot { generation: 0, node: None });
            proof {
                lemma_sums_push(before, NodeSlot { generation: 0, node: None });
            }
        }
        let ghost grown = self.slots@;
        let i = slot as usize;
        proof {
            if free_before.len() > 0 {
                assert(free_before[free_before.len() - 1] == slot);
            }
            assert(grown[i as int].node is None);
        }
        let generation = self.slots[i].generation;
        let id = NodeId::new(slot, generation);
        let dependencies: Vec<BlockPos> = Vec::new();
        let node = GraphNode { pos, state, signature, dependencies };
        self.slots.set(i, NodeSlot { generation, node: Some(node) });
        proof {
            lemma_sums_update(grown, i as int, NodeSlot { generation, node: Some(node) });
        }
        let ghost prior_positions = self.positions;
        self.positions.insert(pos, id);
        let ghost prior_index = self.reverse_dependencies;
        let here = vec![pos];
        index_add(&mut self.reverse_dependencies, id, here.as_slice());
        proof {
            let slots = self.slots@;
            assert forall|x: NodeId| x.slot != slot implies (holds(slots, x) == holds(before, x) && (holds(before, x) ==> held(slots, x) == held(before, x))) by {
                if x.slot < before.len() {
                    assert(slots[x.slot as int] == before[x.slot as int]);
                }
            }
            assert forall|x: NodeId| x.slot == slot implies (holds(slots, x) == (x == id) && !holds(before, x)) by {}
            assert forall|p: BlockPos| p != pos implies (self.positions.has(p) == prior_positions.has(p) && (prior_positions.has(p) ==> self.positions.at(p) == prior_positions.at(p))) by {
                lemma_pack_injective(p, pos);
            }
            assert(self.positions.keyed().dom() =~= prior_positions.keyed().dom().insert(pack(pos)));
            assert forall|x: NodeId| x != id implies (#[trigger] holds(slots, x) == holds(before, x)) by {}
            assert forall|p: BlockPos| #[trigger] self.positions.has(p) implies holds(slots, self.positions.at(p))
                && held(slots, self.positions.at(p)).pos == p by {
                if p != pos {
                    assert(prior_positions.has(p));
                    let x = prior_positions.at(p);
                    assert(holds(before, x));
                }
            }
            assert forall|x: NodeId| #[trigger] holds(slots, x) implies self.positions.has(held(slots, x).pos)
                && self.positions.at(held(slots, x).pos) == x by {
                if x != id {
                    assert(holds(before, x));
                    let q = held(before, x).pos;
                    assert(prior_positions.has(q) && prior_positions.at(q) == x);
                    if q == pos {
                        assert(old(self).id_at(pos) is Some);
                    }
                }
            }
            let free = self.free_slots@;
            assert forall|k: int| 0 <= k < free.len() implies #[trigger] free[k] < slots.len()
                && slots[free[k] as int].node is None by {
                assert(free[k] == free_before[k]);
                assert(free_before[k] != slot);
            }
            assert forall|x: NodeId| #[trigger] holds(slots, x) implies positions_ascending(held(slots, x).dependencies@) by {
                if x != id {
                    assert(holds(before, x));
                }
            }
            assert forall|p: BlockPos, x: NodeId| #[trigger] listed(&self.reverse_dependencies, p).contains(x)
                <==> reads_from(slots, x, p) by {
                assert(listed(&self.reverse_dependencies, p).contains(x) <==> (listed(&prior_index, p).contains(x)
                    || (x == id && here@.contains(p))));
                if here@.contains(p) {
                    assert(here@[0] == p);
                }
                if p == pos {
                    assert(here@[0] == p);
                }
                if x == id {
                    assert(!reads_from(before, x, p));
                } else {
                    assert(reads_from(slots, x, p) == reads_from(before, x, p));
                }
            }
            assert forall|k: int| 0 <= k < old(self).slot_count() implies #[trigger] self.generation_of(k)
                == old(self).generation_of(k) by {
                assert(grown[k] == before[k]);
            }
        }
        id
    }

    /// Takes node `id` out of the indexes and empties its slot: the slot's
    /// generation moves on and the slot joins the empty ones. Nothing
    /// happens when `id` names no node.
    fn remove_node(&mut self, id: NodeId)
        requires
            old(self).valid(),
        ensures
            final(self).valid(),
            !final(self).live(id),
            old(self).live(id) ==> final(self).id_at(old(self).node_of(id).pos) is None,
            forall|p: BlockPos| !(old(self).live(id) && p == old(self).node_of(id).pos) ==> #[trigger] final(self).id_at(p) == old(self).id_at(p),
            forall|x: NodeId| x != id ==> (#[trigger] final(self).live(x) == old(self).live(x)),
            forall|x: NodeId| x != id && old(self).live(x) ==> #[trigger] final(self).node_of(x) == old(self).node_of(x),
            final(self).edge_total() + (if old(self).live(id) {
                old(self).node_of(id).dependencies@.len()
            } else {
                0
            }) == old(self).edge_total(),
            final(self).node_total() + (if old(self).live(id) {
                1int
            } else {
                0
            }) == old(self).node_total(),
            final(self).slot_count() == old(self).slot_count(),
            final(self).free_list() == (if old(self).live(id) {
                old(self).free_list().push(id.slot)
            } else {
                old(self).free_list()
            }),
            forall|i: int| 0 <= i < old(self).slot_count() ==> #[trigger] final(self).generation_of(i) == (if old(self).live(id) && i == id.slot {
                old(self).generation_of(i).wrapping_add(1)
            } else {
                old(self).generation_of(i)
            }),
    {
        let i = id.slot as usize;
        if i >= self.slots.len() || self.slots[i].generation != id.generation || self.slots[i].node.is_none() {
            return;
        }
        let ghost before = self.slots@;
        let ghost old_node = held(before, id);
        let mut taken = NodeSlot { generation: id.generation.wrapping_add(1), node: None };
        self.slots.set_and_swap(i, &mut taken);
        proof {
            lemma_sums_update(before, i as int, NodeSlot { generation: id.generation.wrapping_add(1), node: None });
        }
        let node = match taken.node {
            Some(node) => node,
            None => {
                return;
            },
        };
        proof {
            assert(node == old_node);
        }
        let ghost prior_index = self.reverse_dependencies;
        let here = vec![node.pos];
        index_remove(&mut self.reverse_dependencies, id, here.as_slice());
        let ghost middle_index = self.reverse_dependencies;
        index_remove(&mut self.reverse_dependencies, id, node.dependencies.as_slice());
        self.edge_count = self.edge_count - node.dependencies.len();
        let ghost prior_positions = self.positions;
        self.positions.remove(node.pos);
        self.free_slots.push(id.slot);
        proof {
            let slots = self.slots@;
            let pos = node.pos;
            assert forall|x: NodeId| x.slot != id.slot implies (holds(slots, x) == holds(before, x) && (holds(before, x) ==> held(slots, x) == held(before, x))) by {
                if x.slot < before.len() {
                    assert(slots[x.slot as int] == before[x.slot as int]);
                }
            }
            assert forall|x: NodeId| x.slot == id.slot implies !holds(slots, x) && (holds(before, x) <==> x == id) by {}
            assert(holds(before, id));
            assert(old(self).positions.has(pos) && old(self).positions.at(pos) == id);
            assert(prior_positions.has(pos) && prior_positions.at(pos) == id);
            assert forall|p: BlockPos| p != pos implies (self.positions.has(p) == prior_positions.has(p) && (prior_positions.has(p) ==> self.positions.at(p) == prior_positions.at(p))) by {
                lemma_pack_injective(p, pos);
            }
            assert(self.positions.keyed().dom() =~= prior_positions.keyed().dom().remove(pack(pos)));
            assert forall|p: BlockPos| #[trigger] self.positions.has(p) implies holds(slots, self.positions.at(p))
                && held(slots, self.positions.at(p)).pos == p by {
                assert(p != pos);
                let x = prior_positions.at(p);
                assert(holds(before, x));
                if x == id {
                    assert(held(before, x).pos == pos);
                }
            }
            assert forall|x: NodeId| #[trigger] holds(slots, x) implies self.positions.has(held(slots, x).pos)
                && self.positions.at(held(slots, x).pos) == x by {
                assert(x != id);
                assert(holds(before, x));
                let q = held(before, x).pos;
                assert(prior_positions.has(q) && prior_positions.at(q) == x);
            }
            let free = self.free_slots@;
            let free_before = old(self).free_slots@;
            assert forall|k: int| 0 <= k < free.len() implies #[trigger] free[k] < slots.len()
                && slots[free[k] as int].node is None by {
                if k < free_before.len() {
                    assert(free[k] == free_before[k]);
                }
            }
            assert forall|a: int, b: int| 0 <= a < b < free.len() implies free[a] != free[b] by {
                if b == free_before.len() {
                    assert(free[a] == free_before[a]);
                    assert(before[free_before[a] as int].node is None);
                }
            }
            assert forall|x: NodeId| #[trigger] holds(slots, x) implies positions_ascending(held(slots, x).dependencies@) by {
                assert(holds(before, x));
            }
            assert forall|p: BlockPos, x: NodeId| #[trigger] listed(&self.reverse_dependencies, p).contains(x)
                <==> reads_from(slots, x, p) by {
                assert(listed(&middle_index, p).contains(x) <==> (listed(&prior_index, p).contains(x)
                    && !(x == id && here@.contains(p))));
                if here@.contains(p) {
                    assert(here@[0] == p);
                }
                if p == pos {
                    assert(here@[0] == p);
                }
                if x == id {
                    assert(!reads_from(slots, x, p));
                } else {
                    assert(reads_from(slots, x, p) == reads_from(before, x, p));
                }
            }
            assert forall|k: int| 0 <= k < old(self).slot_count() implies #[trigger] self.generation_of(k) == (if old(self).live(id) && k == id.slot {
                old(self).generation_of(k).wrapping_add(1)
            } else {
                old(self).generation_of(k)
            }) by {}
        }
    }

    /// Gives node `id` a new state and signature, keeping its position and
    /// dependencies. Nothing happens when `id` names no node.
    fn retag_node(&mut self, id: NodeId, state: BlockStateId, signature: TopologySignature)
        requires
            old(self).valid(),
        ensures
            final(self).valid(),
            old(self).live(id) ==> final(self).node_of(id) == (GraphNode { state, signature, ..old(self).node_of(id) }),
            forall|x: NodeId| #[trigger] final(self).live(x) == old(self).live(x),
            forall|x: NodeId| x != id && old(self).live(x) ==> #[trigger] final(self).node_of(x) == old(self).node_of(x),
            forall|p: BlockPos| #[trigger] final(self).id_at(p) == old(self).id_at(p),
            forall|p: BlockPos| #[trigger] final(self).listed_at(p) == old(self).listed_at(p),
            final(self).edge_total() == old(self).edge_total(),
            final(self).node_total() == old(self).node_total(),
            final(self).slot_count() == old(self).slot_count(),
            final(self).free_list() == old(self).free_list(),
            forall|i: int| 0 <= i < old(self).slot_count() ==> #[trigger] final(self).generation_of(i)
                == old(self).generation_of(i),
    {
        let i = id.slot as usize;
        if i >= self.slots.len() || self.slots[i].generation != id.generation || self.slots[i].node.is_none() {
            return;
        }
        let ghost before = self.slots@;
        let mut taken = NodeSlot { generation: id.generation, node: None };
        self.slots.set_and_swap(i, &mut taken);
        let mut node = match taken.node {
            Some(node) => node,
            None => {
                return;
            },
        };
        node.state = state;
        node.signature = signature;
        let ghost fresh = NodeSlot { generation: id.generation, node: Some(node) };
        self.slots.set(i, NodeSlot { generation: id.generation, node: Some(node) });
        proof {
            let slots = self.slots@;
            assert(slots =~= before.update(i as int, fresh));
            lemma_sums_update(before, i as int, fresh);
            assert forall|x: NodeId| x.slot != id.slot implies (holds(slots, x) == holds(before, x) && (holds(before, x) ==> held(slots, x) == held(before, x))) by {
                if x.slot < before.len() {
                    assert(slots[x.slot as int] == before[x.slot as int]);
                }
            }
            assert forall|x: NodeId| #[trigger] holds(slots, x) == holds(before, x) by {}
            assert forall|x: NodeId| holds(slots, x) implies #[trigger] held(slots, x).pos == held(before, x).pos
                && held(slots, x).dependencies == held(before, x).dependencies by {}
            assert forall|p: BlockPos, x: NodeId| #[trigger] reads_from(slots, x, p) == reads_from(before, x, p) by {}
            assert forall|x: NodeId| #[trigger] holds(slots, x) implies positions_ascending(held(slots, x).dependencies@) by {
                assert(holds(before, x));
            }
            assert forall|p: BlockPos| #[trigger] self.positions.has(p) implies holds(slots, self.positions.at(p))
                && held(slots, self.positions.at(p)).pos == p by {
                assert(holds(before, self.positions.at(p)));
            }
            assert forall|x: NodeId| #[trigger] holds(slots, x) implies self.positions.has(held(slots, x).pos)
                && self.positions.at(held(slots, x).pos) == x by {
                assert(holds(before, x));
            }
            assert forall|k: int| 0 <= k < self.free_slots@.len() implies #[trigger] self.free_slots@[k] < slots.len()
                && slots[self.free_slots@[k] as int].node is None by {
                assert(before[self.free_slots@[k] as int].node is None);
            }
        }
    }

    /// Gives the node at `pos`, if there is one, the state `state`.
    pub fn update_state(&mut self, pos: BlockPos, state: BlockStateId)
        requires
            old(self).valid(),
        ensures
            final(self).valid(),
            forall|x: NodeId| #[trigger] final(self).live(x) == old(self).live(x),
            forall|x: NodeId| old(self).live(x) ==> #[trigger] final(self).node_of(x) == (if old(self).id_at(pos)
                == Some(x) {
                GraphNode { state, ..old(self).node_of(x) }
            } else {
                old(self).node_of(x)
            }),
            forall|p: BlockPos| #[trigger] final(self).id_at(p) == old(self).id_at(p),
            forall|p: BlockPos| #[trigger] final(self).listed_at(p) == old(self).listed_at(p),
            final(self).edge_total() == old(self).edge_total(),
            final(self).node_total() == old(self).node_total(),
            final(self).slot_count() == old(self).slot_count(),
            final(self).free_list() == old(self).free_list(),
            forall|i: int| 0 <= i < old(self).slot_count() ==> #[trigger] final(self).generation_of(i)
                == old(self).generation_of(i),
    {
        let id = match self.node_id(pos) {
            Some(id) => id,
            None => {
                return;
            },
        };
        let signature = match self.node(id) {
            Some(node) => node.signature,
            None => {
                return;
            },
        };
        self.retag_node(id, state, signature);
    }

    /// Gives node `id` the state `state` and, sorted and without repeats,
    /// the dependencies `dependencies`, and lists it anew under its own
    /// position and each dependency. Nothing happens when `id` names no node.
    fn rebuild_node(&mut self, id: NodeId, state: BlockStateId, dependencies: Vec<BlockPos>)
        requires
            old(self).valid(),
            old(self).edge_total() + dependencies@.len() <= usize::MAX,
        ensures
            final(self).valid(),
            old(self).live(id) ==> {
                let rebuilt = final(self).node_of(id);
                &&& rebuilt == (GraphNode { state, dependencies: rebuilt.dependencies, ..old(self).node_of(id) })
                &&& positions_ascending(rebuilt.dependencies@)
                &&& forall|p: BlockPos| rebuilt.dependencies@.contains(p) <==> dependencies@.contains(p)
                &&& rebuilt.dependencies@.len() <= dependencies@.len()
                &&& final(self).edge_total() + old(self).node_of(id).dependencies@.len() == old(self).edge_total()
                    + rebuilt.dependencies@.len()
            },
            !old(self).live(id) ==> final(self).edge_total() == old(self).edge_total(),
            forall|x: NodeId| #[trigger] final(self).live(x) == old(self).live(x),
            forall|x: NodeId| x != id && old(self).live(x) ==> #[trigger] final(self).node_of(x) == old(self).node_of(x),
            forall|p: BlockPos| #[trigger] final(self).id_at(p) == old(self).id_at(p),
            final(self).node_total() == old(self).node_total(),
            final(self).slot_count() == old(self).slot_count(),
            final(self).free_list() == old(self).free_list(),
            forall|i: int| 0 <= i < old(self).slot_count() ==> #[trigger] final(self).generation_of(i)
                == old(self).generation_of(i),
    {
        let i = id.slot as usize;
        if i >= self.slots.len() || self.slots[i].generation != id.generation || self.slots[i].node.is_none() {
            return;
        }
        let ghost before = self.slots@;
        let mut taken = NodeSlot { generation: id.generation, node: None };
        self.slots.set_and_swap(i, &mut taken);
        let mut node = match taken.node {
            Some(node) => node,
            None => {
                return;
            },
        };
        proof {
            assert(node == held(before, id));
            lemma_sums_update(before, i as int, NodeSlot { generation: id.generation, node: None });
        }
        let ghost prior_index = self.reverse_dependencies;
        let here = vec![node.pos];
        index_remove(&mut self.reverse_dependencies, id, here.as_slice());
        let ghost after_here = self.reverse_dependencies;
        index_remove(&mut self.reverse_dependencies, id, node.dependencies.as_slice());
        let ghost cleared = self.reverse_dependencies;
        self.edge_count = self.edge_count - node.dependencies.len();
        let mut fresh = dependencies;
        optimize_dependencies(&mut fresh);
        index_add(&mut self.reverse_dependencies, id, here.as_slice());
        let ghost readded = self.reverse_dependencies;
        index_add(&mut self.reverse_dependencies, id, fresh.as_slice());
        self.edge_count = self.edge_count + fresh.len();
        node.state = state;
        node.dependencies = fresh;
        let ghost fresh_slot = NodeSlot { generation: id.generation, node: Some(node) };
        let ghost emptied = self.slots@;
        self.slots.set(i, NodeSlot { generation: id.generation, node: Some(node) });
        proof {
            let slots = self.slots@;
            assert(slots =~= before.update(i as int, fresh_slot));
            assert(emptied =~= before.update(i as int, NodeSlot { generation: id.generation, node: None }));
            assert(slots =~= emptied.update(i as int, fresh_slot));
            lemma_sums_update(emptied, i as int, fresh_slot);
            let pos = node.pos;
            assert forall|x: NodeId| x.slot != id.slot implies (holds(slots, x) == holds(before, x) && (holds(before, x) ==> held(slots, x) == held(before, x))) by {
                if x.slot < before.len() {
                    assert(slots[x.slot as int] == before[x.slot as int]);
                }
            }
            assert forall|x: NodeId| #[trigger] holds(slots, x) == holds(before, x) by {}
            assert forall|x: NodeId| holds(slots, x) implies #[trigger] held(slots, x).pos == held(before, x).pos by {}
            assert forall|x: NodeId| #[trigger] holds(slots, x) implies positions_ascending(held(slots, x).dependencies@) by {
                assert(holds(before, x));
            }
            assert forall|p: BlockPos| #[trigger] self.positions.has(p) implies holds(slots, self.positions.at(p))
                && held(slots, self.positions.at(p)).pos == p by {
                assert(holds(before, self.positions.at(p)));
            }
            assert forall|x: NodeId| #[trigger] holds(slots, x) implies self.positions.has(held(slots, x).pos)
                && self.positions.at(held(slots, x).pos) == x by {
                assert(holds(before, x));
            }
            assert forall|k: int| 0 <= k < self.free_slots@.len() implies #[trigger] self.free_slots@[k] < slots.len()
                && slots[self.free_slots@[k] as int].node is None by {
                assert(before[self.free_slots@[k] as int].node is None);
            }
            assert forall|p: BlockPos, x: NodeId| #[trigger] listed(&self.reverse_dependencies, p).contains(x)
                <==> reads_from(slots, x, p) by {
                if here@.contains(p) || p == pos {
                    assert(here@[0] == p);
                }
                assert(listed(&after_here, p).contains(x) <==> (listed(&prior_index, p).contains(x)
                    && !(x == id && here@.contains(p))));
                assert(listed(&cleared, p).contains(x) <==> (listed(&after_here, p).contains(x)
                    && !(x == id && held(before, id).dependencies@.contains(p))));
                assert(listed(&readded, p).contains(x) <==> (listed(&cleared, p).contains(x)
                    || (x == id && here@.contains(p))));
                if x != id {
                    assert(reads_from(slots, x, p) == reads_from(before, x, p));
                }
            }
        }
    }

    /// Whether the node at `p`, if any, stands at or reads one of `positions`.
    pub open spec fn touches(&self, p: BlockPos, positions: Seq<BlockPos>) -> bool {
        match self.id_at(p) {
            Some(x) => exists|q: BlockPos| #[trigger] positions.contains(q) && self.reads(x, q),
            None => false,
        }
    }

    /// The positions of the nodes that stand at or read one of `positions`,
    /// ascending: those whose nodes a recompile of `positions` rebuilds.
    pub fn touched_positions(&self, positions: &[BlockPos]) -> (touched: Vec<BlockPos>)
        requires
            self.valid(),
        ensures
            positions_ascending(touched@),
            forall|p: BlockPos| #[trigger] touched@.contains(p) <==> self.touches(p, positions@),
    {
        let mut touched: Vec<BlockPos> = Vec::new();
        let mut k: usize = 0;
        while k < positions.len()
            invariant
                self.valid(),
                k <= positions@.len(),
                positions_ascending(touched@),
                forall|p: BlockPos| #[trigger] touched@.contains(p) <==> self.touches(p, positions@.take(k as int)),
            decreases positions@.len() - k,
        {
            let q = positions[k];
            let found = self.dependents(q);
            let mut j: usize = 0;
            while j < found.len()
                invariant
                    self.valid(),
                    k < positions@.len(),
                    q == positions@[k as int],
                    j <= found@.len(),
                    positions_ascending(touched@),
                    forall|p: BlockPos| #[trigger] found@.contains(p) <==> (match self.id_at(p) {
                        Some(id) => p == q || self.node_of(id).dependencies@.contains(q),
                        None => false,
                    }),
                    forall|p: BlockPos| #[trigger] touched@.contains(p) <==> (self.touches(p, positions@.take(k as int))
                        || found@.take(j as int).contains(p)),
                decreases found@.len() - j,
            {
                insert_position(&mut touched, found[j]);
                proof {
                    let taken = found@.take(j + 1);
                    assert(taken =~= found@.take(j as int).push(found@[j as int]));
                    assert forall|p: BlockPos| taken.contains(p) <==> (found@.take(j as int).contains(p) || p == found@[j as int]) by {
                        if taken.contains(p) {
                            let i = choose|i: int| 0 <= i < taken.len() && taken[i] == p;
                            if i < j {
                                assert(found@.take(j as int)[i] == p);
                            }
                        }
                        if found@.take(j as int).contains(p) {
                            let i = choose|i: int| 0 <= i < j && found@.take(j as int)[i] == p;
                            assert(taken[i] == p);
                        }
                        if p == found@[j as int] {
                            assert(taken[j as int] == p);
                        }
                    }
                }
                j += 1;
            }
            proof {
                assert(found@.take(found@.len() as int) =~= found@);
                let before = positions@.take(k as int);
                let after = positions@.take(k + 1);
                assert(after =~= before.push(q));
                assert forall|p: BlockPos| #[trigger] touched@.contains(p) <==> self.touches(p, after) by {
                    match self.id_at(p) {
                        Some(x) => {
                            assert(self.positions.has(p));
                            assert(holds(self.slots@, x) && held(self.slots@, x).pos == p);
                            if self.touches(p, after) {
                                let r = choose|r: BlockPos| #[trigger] after.contains(r) && self.reads(x, r);
                                let i = choose|i: int| 0 <= i < after.len() && after[i] == r;
                                if i < k {
                                    assert(before[i] == r);
                                    assert(before.contains(r));
                                } else {
                                    assert(r == q);
                                    assert(found@.contains(p));
                                }
                            }
                            if self.touches(p, before) {
                                let r = choose|r: BlockPos| #[trigger] before.contains(r) && self.reads(x, r);
                                let i = choose|i: int| 0 <= i < before.len() && before[i] == r;
                                assert(after[i] == r);
                                assert(after.contains(r));
                            }
                            if found@.contains(p) {
                                assert(self.reads(x, q));
                                assert(after[k as int] == q);
                                assert(after.contains(q));
                            }
                        },
                        None => {},
                    }
                }
            }
            k += 1;
        }
        proof {
            assert(positions@.take(positions@.len() as int) =~= positions@);
        }
        touched
    }
}

/// What the world shows at one position when a recompile reads it: the
/// block state there, its topology signature, if the block has one, and
/// the positions a node there reads.
#[derive(Debug)]
pub struct BlockReading {
    pub pos: BlockPos,
    pub state: BlockStateId,
    pub signature: Option<TopologySignature>,
    pub dependencies: Vec<BlockPos>,
}

/// Whether no two readings are of the same position.
pub open spec fn readings_distinct(world: Seq<BlockReading>) -> bool {
    forall|i: int, j: int| 0 <= i < j < world.len() ==> world[i].pos != world[j].pos
}

/// Whether some reading is of `pos`.
pub open spec fn has_reading(world: Seq<BlockReading>, pos: BlockPos) -> bool {
    exists|j: int| 0 <= j < world.len() && #[trigger] world[j].pos == pos
}

/// The reading of `pos`.
pub open spec fn reading_of(world: Seq<BlockReading>, pos: BlockPos) -> BlockReading {
    world[choose|j: int| 0 <= j < world.len() && #[trigger] world[j].pos == pos]
}

/// Whether a block with this signature becomes a node: it has a signature
/// and is no boundary.
pub open spec fn compiles(signature: Option<TopologySignature>) -> bool {
    match signature {
        Some(signature) => signature.node_kind != NodeKind::Boundary,
        None => false,
    }
}

/// Whether a recompile keeps the node at `p` under its handle: there is one,
/// of the same kind as `signature`.
pub open spec fn kept(before: &CompiledGraph, p: BlockPos, signature: TopologySignature) -> bool {
    match before.id_at(p) {
        Some(x) => before.node_of(x).signature.node_kind == signature.node_kind,
        None => false,
    }
}

/// What a recompile leaves at the changed position `p`, read as `r`: when
/// the reading compiles, a node with the reading's state and signature,
/// under the old handle where the old node had the same kind, and else,
/// where there was an old node, in its slot under the next generation; no
/// node when the reading does not compile.
pub open spec fn recompiled_at(before: &CompiledGraph, after: &CompiledGraph, p: BlockPos, r: BlockReading) -> bool {
    if compiles(r.signature) {
        let signature = r.signature->0;
        match after.id_at(p) {
            Some(y) => {
                &&& after.live(y)
                &&& after.node_of(y).pos == p
                &&& after.node_of(y).state == r.state
                &&& after.node_of(y).signature == signature
                &&& if kept(before, p, signature) {
                    Some(y) == before.id_at(p)
                } else {
                    match before.id_at(p) {
                        Some(x) => y == (NodeId { slot: x.slot, generation: x.generation.wrapping_add(1) }),
                        None => true,
                    }
                }
            },
            None => false,
        }
    } else {
        after.id_at(p) is None
    }
}

/// Finds the reading of `pos`.
fn find_reading(world: &[BlockReading], pos: BlockPos) -> (found: Option<usize>)
    requires
        readings_distinct(world@),
    ensures
        match found {
            Some(j) => j < world@.len() && world@[j as int].pos == pos && reading_of(world@, pos) == world@[j as int],
            None => !has_reading(world@, pos),
        },
{
    let mut j: usize = 0;
    while j < world.len()
        invariant
            j <= world@.len(),
            readings_distinct(world@),
            forall|i: int| 0 <= i < j ==> #[trigger] world@[i].pos != pos,
        decreases world@.len() - j,
    {
        if world[j].pos.same(&pos) {
            proof {
                let c = choose|i: int| 0 <= i < world@.len() && #[trigger] world@[i].pos == pos;
                assert(world@[j as int].pos == pos);
                if c != j {
                    assert(readings_distinct(world@));
                    if c < j {
                    } else {
                        assert(world@[j as int].pos != world@[c].pos);
                    }
                }
            }
            return Some(j);
        }
        j += 1;
    }
    None
}

/// A copy of the positions of a slice.
fn copy_positions(source: &[BlockPos]) -> (copy: Vec<BlockPos>)
    ensures
        copy@ == source@,
{
    let mut copy: Vec<BlockPos> = Vec::new();
    let mut k: usize = 0;
    while k < source.len()
        invariant
            k <= source@.len(),
            copy@ == source@.take(k as int),
        decreases source@.len() - k,
    {
        copy.push(source[k]);
        proof {
            assert(source@.take(k + 1) =~= source@.take(k as int).push(source@[k as int]));
        }
        k += 1;
    }
    proof {
        assert(source@.take(source@.len() as int) =~= source@);
    }
    copy
}

impl CompiledGraph {
    /// Changes the nodes of `positions` to what `world` shows there: a node
    /// of another kind, or at a position that held none, is placed anew; a
    /// node of the same kind keeps its handle and takes the new state and
    /// signature; a block that compiles to no node leaves none. Gives the
    /// handles of the nodes now at `positions`, ascending.
    fn restructure(&mut self, positions: &[BlockPos], world: &[BlockReading]) -> (placed: Vec<NodeId>)
        requires
            old(self).valid(),
            positions@.no_duplicates(),
            readings_distinct(world@),
            forall|p: BlockPos| #[trigger] positions@.contains(p) ==> has_reading(world@, p),
            old(self).slot_count() + positions@.len() <= u32::MAX,
        ensures
            final(self).valid(),
            ids_sorted(placed@),
            forall|y: NodeId| #[trigger] placed@.contains(y) <==> (final(self).live(y) && positions@.contains(
                final(self).node_of(y).pos)),
            forall|p: BlockPos| #[trigger] positions@.contains(p) ==> recompiled_at(old(self), final(self), p,
                reading_of(world@, p)),
            forall|p: BlockPos| !positions@.contains(p) ==> #[trigger] final(self).id_at(p) == old(self).id_at(p),
            forall|p: BlockPos| !positions@.contains(p) ==> match #[trigger] old(self).id_at(p) {
                Some(x) => final(self).live(x) && final(self).node_of(x) == old(self).node_of(x),
                None => true,
            },
            final(self).edge_total() <= old(self).edge_total(),
    {
        let ghost start = *self;
        let mut placed: Vec<NodeId> = Vec::new();
        let mut k: usize = 0;
        while k < positions.len()
            invariant
                self.valid(),
                start == *old(self),
                k <= positions@.len(),
                positions@.no_duplicates(),
                readings_distinct(world@),
                forall|p: BlockPos| #[trigger] positions@.contains(p) ==> has_reading(world@, p),
                start.slot_count() + positions@.len() <= u32::MAX,
                self.slot_count() <= start.slot_count() + k,
                self.edge_total() <= start.edge_total(),
                ids_sorted(placed@),
                forall|y: NodeId| #[trigger] placed@.contains(y) <==> (self.live(y) && positions@.take(k as int).contains(
                    self.node_of(y).pos)),
                forall|p: BlockPos| #[trigger] positions@.take(k as int).contains(p) ==> recompiled_at(&start, self, p,
                    reading_of(world@, p)),
                forall|p: BlockPos| !positions@.take(k as int).contains(p) ==> #[trigger] self.id_at(p) == start.id_at(p),
                forall|p: BlockPos| !positions@.take(k as int).contains(p) ==> match #[trigger] start.id_at(p) {
                    Some(x) => self.live(x) && self.node_of(x) == start.node_of(x),
                    None => true,
                },
            decreases positions@.len() - k,
        {
            let pos = positions[k];
            let ghost before = *self;
            let ghost done = positions@.take(k as int);
            let ghost next = positions@.take(k + 1);
            proof {
                assert(next =~= done.push(pos));
                assert(positions@.contains(pos));
                assert(!done.contains(pos)) by {
                    if done.contains(pos) {
                        let i = choose|i: int| 0 <= i < done.len() && done[i] == pos;
                        assert(positions@[i] == positions@[k as int]);
                    }
                }
            }
            let j = match find_reading(world, pos) {
                Some(j) => j,
                None => {
                    proof {
                        assert(has_reading(world@, pos));
                    }
                    return placed;
                },
            };
            let state = world[j].state;
            let signature = world[j].signature;
            let compiles_here = match signature {
                Some(signature) => !(signature.node_kind == NodeKind::Boundary),
                None => false,
            };
            match self.node_id(pos) {
                Some(old_id) => {
                    proof {
                        assert(self.positions.has(pos));
                        assert(holds(self.slots@, old_id));
                    }
                    if compiles_here {
                        let sig = match signature {
                            Some(sig) => sig,
                            None => {
                                return placed;
                            },
                        };
                        let same_kind = match self.node(old_id) {
                            Some(node) => node.signature.node_kind == sig.node_kind,
                            None => false,
                        };
                        proof {
                            assert(start.id_at(pos) == Some(old_id));
                            assert(before.node_of(old_id) == start.node_of(old_id));
                        }
                        if same_kind {
                            self.retag_node(old_id, state, sig);
                            insert_handle(&mut placed, old_id);
                            proof {
                                assert(self.id_at(pos) == Some(old_id));
                                assert(kept(&start, pos, sig));
                                assert(recompiled_at(&start, self, pos, world@[j as int]));
                            }
                        } else {
                            self.remove_node(old_id);
                            let ghost emptied = *self;
                            let id = self.insert_node(pos, state, sig);
                            insert_handle(&mut placed, id);
                            proof {
                                assert(emptied.free_list().last() == old_id.slot);
                                assert(emptied.generation_of(old_id.slot as int) == old_id.generation.wrapping_add(1));
                                assert(!kept(&start, pos, sig));
                                assert(recompiled_at(&start, self, pos, world@[j as int]));
                            }
                        }
                    } else {
                        self.remove_node(old_id);
                        proof {
                            assert(recompiled_at(&start, self, pos, world@[j as int]));
                        }
                    }
                },
                None => {
                    if compiles_here {
                        let sig = match signature {
                            Some(sig) => sig,
                            None => {
                                return placed;
                            },
                        };
                        let id = self.insert_node(pos, state, sig);
                        insert_handle(&mut placed, id);
                        proof {
                            assert(start.id_at(pos) is None);
                            assert(recompiled_at(&start, self, pos, world@[j as int]));
                        }
                    } else {
                        proof {
                            assert(recompiled_at(&start, self, pos, world@[j as int]));
                        }
                    }
                },
            }
            proof {
                assert(start.id_at(pos) == before.id_at(pos));
                assert forall|y: NodeId| #[trigger] placed@.contains(y) <==> (self.live(y) && next.contains(
                    self.node_of(y).pos)) by {
                    vstd::seq_lib::lemma_seq_contains_after_push(done, pos, self.node_of(y).pos);
                    if self.live(y) && self.node_of(y).pos == pos {
                        assert(self.positions.has(pos) && self.positions.at(pos) == y);
                    }
                }
                assert forall|p: BlockPos| #[trigger] next.contains(p) implies recompiled_at(&start, self, p,
                    reading_of(world@, p)) by {
                    vstd::seq_lib::lemma_seq_contains_after_push(done, pos, p);
                    if p != pos {
                        assert(done.contains(p));
                        assert(recompiled_at(&start, &before, p, reading_of(world@, p)));
                        assert(self.id_at(p) == before.id_at(p));
                        match before.id_at(p) {
                            Some(y) => {
                                assert(before.positions.has(p));
                                assert(holds(before.slots@, y));
                            },
                            None => {},
                        }
                    }
                }
                assert forall|p: BlockPos| !next.contains(p) implies #[trigger] self.id_at(p) == start.id_at(p) by {
                    vstd::seq_lib::lemma_seq_contains_after_push(done, pos, p);
                    assert(!done.contains(p));
                    assert(before.id_at(p) == start.id_at(p));
                }
                assert forall|p: BlockPos| !next.contains(p) implies match #[trigger] start.id_at(p) {
                    Some(x) => self.live(x) && self.node_of(x) == start.node_of(x),
                    None => true,
                } by {
                    vstd::seq_lib::lemma_seq_contains_after_push(done, pos, p);
                    assert(!done.contains(p));
                    match start.id_at(p) {
                        Some(x) => {
                            assert(before.id_at(p) == start.id_at(p));
                            assert(before.live(x));
                            assert(before.positions.has(p) && before.positions.at(p) == x);
                            assert(holds(before.slots@, x));
                            assert(held(before.slots@, x).pos == p);
                        },
                        None => {},
                    }
                }
            }
            k += 1;
        }
        proof {
            assert(positions@.take(positions@.len() as int) =~= positions@);
        }
        placed
    }

    /// Adds to `ids` the handle of the node at each of `touched` that has one.
    fn add_nodes_at(&self, ids: &mut Vec<NodeId>, touched: &[BlockPos])
        requires
            ids_sorted(old(ids)@),
        ensures
            ids_sorted(final(ids)@),
            forall|y: NodeId| #[trigger] final(ids)@.contains(y) <==> (old(ids)@.contains(y) || exists|p: BlockPos|
                #[trigger] touched@.contains(p) && self.id_at(p) == Some(y)),
    {
        let mut k: usize = 0;
        while k < touched.len()
            invariant
                k <= touched@.len(),
                ids_sorted(ids@),
                forall|y: NodeId| #[trigger] ids@.contains(y) <==> (old(ids)@.contains(y) || exists|p: BlockPos|
                    #[trigger] touched@.take(k as int).contains(p) && self.id_at(p) == Some(y)),
            decreases touched@.len() - k,
        {
            let p = touched[k];
            let ghost done = touched@.take(k as int);
            proof {
                assert(touched@.take(k + 1) =~= done.push(p));
            }
            match self.node_id(p) {
                Some(id) => {
                    insert_handle(ids, id);
                },
                None => {},
            }
            proof {
                let next = touched@.take(k + 1);
                assert forall|y: NodeId| #[trigger] ids@.contains(y) <==> (old(ids)@.contains(y) || exists|q: BlockPos|
                    #[trigger] next.contains(q) && self.id_at(q) == Some(y)) by {
                    if exists|q: BlockPos| #[trigger] next.contains(q) && self.id_at(q) == Some(y) {
                        let q = choose|q: BlockPos| #[trigger] next.contains(q) && self.id_at(q) == Some(y);
                        vstd::seq_lib::lemma_seq_contains_after_push(done, p, q);
                        if q != p {
                            assert(done.contains(q));
                        }
                    }
                    if exists|q: BlockPos| #[trigger] done.contains(q) && self.id_at(q) == Some(y) {
                        let q = choose|q: BlockPos| #[trigger] done.contains(q) && self.id_at(q) == Some(y);
                        vstd::seq_lib::lemma_seq_contains_after_push(done, p, q);
                        assert(next.contains(q));
                    }
                    vstd::seq_lib::lemma_seq_contains_after_push(done, p, p);
                }
            }
            k += 1;
        }
        proof {
            assert(touched@.take(touched@.len() as int) =~= touched@);
        }
    }
}

/// The dependencies of all readings, counted together.
pub open spec fn readings_total(world: Seq<BlockReading>) -> nat
    decreases world.len(),
{
    if world.len() == 0 {
        0
    } else {
        readings_total(world.drop_last()) + world.last().dependencies@.len()
    }
}

/// The dependencies of the readings whose indices are not in `used`.
spec fn unused_total(world: Seq<BlockReading>, used: Set<int>) -> nat
    decreases world.len(),
{
    if world.len() == 0 {
        0
    } else {
        unused_total(world.drop_last(), used) + if used.contains(world.len() - 1) {
            0
        } else {
            world.last().dependencies@.len()
        }
    }
}

/// With no reading used, all of them count.
proof fn lemma_unused_none(world: Seq<BlockReading>)
    ensures
        unused_total(world, Set::empty()) == readings_total(world),
    decreases world.len(),
{
    if world.len() > 0 {
        lemma_unused_none(world.drop_last());
    }
}

/// Using one more reading takes its dependencies off the count.
proof fn lemma_unused_take(world: Seq<BlockReading>, used: Set<int>, j: int)
    requires
        0 <= j < world.len(),
        !used.contains(j),
    ensures
        unused_total(world, used.insert(j)) + world[j].dependencies@.len() == unused_total(world, used),
    decreases world.len(),
{
    if j < world.len() - 1 {
        lemma_unused_take(world.drop_last(), used, j);
    } else {
        lemma_unused_same(world.drop_last(), used, j);
    }
}

/// An index past the readings does not change the count.
proof fn lemma_unused_same(world: Seq<BlockReading>, used: Set<int>, j: int)
    requires
        j >= world.len(),
    ensures
        unused_total(world, used.insert(j)) == unused_total(world, used),
    decreases world.len(),
{
    if world.len() > 0 {
        lemma_unused_same(world.drop_last(), used, j);
    }
}

impl CompiledGraph {
    /// Rebuilds each node of `ids` from the reading of its position: its
    /// state and its dependencies, sorted and without repeats.
    fn rebuild_all(&mut self, ids: &[NodeId], world: &[BlockReading])
        requires
            old(self).valid(),
            ids_sorted(ids@),
            readings_distinct(world@),
            forall|y: NodeId| #[trigger] ids@.contains(y) ==> old(self).live(y) && has_reading(world@, old(self).node_of(
                y).pos),
            old(self).edge_total() + readings_total(world@) <= usize::MAX,
        ensures
            final(self).valid(),
            forall|x: NodeId| #[trigger] final(self).live(x) == old(self).live(x),
            forall|p: BlockPos| #[trigger] final(self).id_at(p) == old(self).id_at(p),
            forall|x: NodeId| old(self).live(x) && !ids@.contains(x) ==> #[trigger] final(self).node_of(x) == old(
                self).node_of(x),
            forall|x: NodeId| #[trigger] ids@.contains(x) ==> {
                let r = reading_of(world@, old(self).node_of(x).pos);
                let rebuilt = final(self).node_of(x);
                &&& rebuilt == (GraphNode { state: r.state, dependencies: rebuilt.dependencies, ..old(self).node_of(x) })
                &&& positions_ascending(rebuilt.dependencies@)
                &&& forall|p: BlockPos| rebuilt.dependencies@.contains(p) <==> r.dependencies@.contains(p)
            },
    {
        let ghost start = *self;
        let ghost mut used: Set<int> = Set::empty();
        proof {
            lemma_unused_none(world@);
        }
        let mut k: usize = 0;
        while k < ids.len()
            invariant
                self.valid(),
                start.valid(),
                start == *old(self),
                k <= ids@.len(),
                ids_sorted(ids@),
                readings_distinct(world@),
                forall|y: NodeId| #[trigger] ids@.contains(y) ==> start.live(y) && has_reading(world@, start.node_of(y).pos),
                start.edge_total() + readings_total(world@) <= usize::MAX,
                self.edge_total() + unused_total(world@, used) <= start.edge_total() + readings_total(world@),
                forall|i: int| #[trigger] used.contains(i) ==> 0 <= i < world@.len() && exists|m: int| 0 <= m < k
                    && world@[i].pos == start.node_of(#[trigger] ids@[m]).pos,
                forall|x: NodeId| #[trigger] self.live(x) == start.live(x),
                forall|p: BlockPos| #[trigger] self.id_at(p) == start.id_at(p),
                forall|x: NodeId| start.live(x) && !ids@.take(k as int).contains(x) ==> #[trigger] self.node_of(x)
                    == start.node_of(x),
                forall|x: NodeId| #[trigger] ids@.take(k as int).contains(x) ==> {
                    let r = reading_of(world@, start.node_of(x).pos);
                    let rebuilt = self.node_of(x);
                    &&& rebuilt == (GraphNode { state: r.state, dependencies: rebuilt.dependencies, ..start.node_of(x) })
                    &&& positions_ascending(rebuilt.dependencies@)
                    &&& forall|p: BlockPos| rebuilt.dependencies@.contains(p) <==> r.dependencies@.contains(p)
                },
            decreases ids@.len() - k,
        {
            let id = ids[k];
            let ghost before = *self;
            let ghost done = ids@.take(k as int);
            proof {
                assert(ids@.take(k + 1) =~= done.push(id));
                assert(ids@.contains(id));
                assert(!done.contains(id)) by {
                    if done.contains(id) {
                        let i = choose|i: int| 0 <= i < done.len() && done[i] == id;
                        assert(id_lt(ids@[i], ids@[k as int]));
                    }
                }
                assert(self.node_of(id) == start.node_of(id));
            }
            let pos = match self.node(id) {
                Some(node) => node.pos,
                None => {
                    return;
                },
            };
            let j = match find_reading(world, pos) {
                Some(j) => j,
                None => {
                    return;
                },
            };
            proof {
                assert(!used.contains(j as int)) by {
                    if used.contains(j as int) {
                        let m = choose|m: int| 0 <= m < k && world@[j as int].pos == start.node_of(#[trigger] ids@[m]).pos;
                        let other = ids@[m];
                        assert(ids@.contains(other));
                        assert(start.live(other));
                        assert(holds(start.slots@, other) && holds(start.slots@, id));
                        assert(start.positions.at(held(start.slots@, other).pos) == other);
                        assert(start.positions.at(held(start.slots@, id).pos) == id);
                        assert(id_lt(ids@[m], ids@[k as int]));
                    }
                }
                lemma_unused_take(world@, used, j as int);
            }
            let dependencies = copy_positions(world[j].dependencies.as_slice());
            self.rebuild_node(id, world[j].state, dependencies);
            proof {
                used = used.insert(j as int);
                let next = ids@.take(k + 1);
                assert forall|i: int| #[trigger] used.contains(i) implies 0 <= i < world@.len() && exists|m: int| 0 <= m
                    < k + 1 && world@[i].pos == start.node_of(#[trigger] ids@[m]).pos by {
                    if i == j {
                        assert(world@[i].pos == start.node_of(ids@[k as int]).pos);
                    } else {
                        let m = choose|m: int| 0 <= m < k && world@[i].pos == start.node_of(#[trigger] ids@[m]).pos;
                        assert(world@[i].pos == start.node_of(ids@[m]).pos);
                    }
                }
                assert forall|x: NodeId| start.live(x) && !next.contains(x) implies #[trigger] self.node_of(x)
                    == start.node_of(x) by {
                    vstd::seq_lib::lemma_seq_contains_after_push(done, id, x);
                }
                assert forall|x: NodeId| #[trigger] next.contains(x) implies {
                    let r = reading_of(world@, start.node_of(x).pos);
                    let rebuilt = self.node_of(x);
                    &&& rebuilt == (GraphNode { state: r.state, dependencies: rebuilt.dependencies, ..start.node_of(x) })
                    &&& positions_ascending(rebuilt.dependencies@)
                    &&& forall|p: BlockPos| rebuilt.dependencies@.contains(p) <==> r.dependencies@.contains(p)
                } by {
                    vstd::seq_lib::lemma_seq_contains_after_push(done, id, x);
                    if x != id {
                        assert(done.contains(x));
                        let i = choose|i: int| 0 <= i < done.len() && done[i] == x;
                        assert(ids@[i] == x);
                        assert(ids@.contains(x));
                        assert(before.live(x));
                        assert(self.node_of(x) == before.node_of(x));
                    }
                }
            }
            k += 1;
        }
        proof {
            assert(ids@.take(ids@.len() as int) =~= ids@);
        }
    }

    /// Recompiles the nodes of the changed `positions` from what `world`
    /// shows there, and rebuilds those nodes and the nodes that stood at or
    /// read one of them before; gives the number of nodes rebuilt. `world`
    /// holds one reading for each changed position and for the position of
    /// each such node.
    pub fn recompile_positions(&mut self, positions: &[BlockPos], world: &[BlockReading]) -> (rebuilt: usize)
        requires
            old(self).valid(),
            positions@.no_duplicates(),
            readings_distinct(world@),
            forall|p: BlockPos| #[trigger] positions@.contains(p) ==> has_reading(world@, p),
            forall|p: BlockPos| #[trigger] old(self).touches(p, positions@) ==> has_reading(world@, p),
            old(self).slot_count() + positions@.len() <= u32::MAX,
            old(self).edge_total() + readings_total(world@) <= usize::MAX,
        ensures
            final(self).valid(),
            forall|p: BlockPos| #[trigger] positions@.contains(p) ==> recompiled_at(old(self), final(self), p,
                reading_of(world@, p)),
            forall|p: BlockPos| !positions@.contains(p) ==> #[trigger] final(self).id_at(p) == old(self).id_at(p),
            forall|p: BlockPos| (positions@.contains(p) || old(self).touches(p, positions@)) ==> match #[trigger] final(
                self).id_at(p) {
                Some(y) => {
                    let r = reading_of(world@, p);
                    &&& final(self).node_of(y).state == r.state
                    &&& positions_ascending(final(self).node_of(y).dependencies@)
                    &&& forall|q: BlockPos| final(self).node_of(y).dependencies@.contains(q) <==> r.dependencies@.contains(q)
                },
                None => true,
            },
            forall|p: BlockPos| !positions@.contains(p) ==> match #[trigger] old(self).id_at(p) {
                Some(x) => final(self).live(x) && final(self).node_of(x).pos == p && final(self).node_of(x).signature
                    == old(self).node_of(x).signature && (!old(self).touches(p, positions@) ==> final(self).node_of(x)
                    == old(self).node_of(x)),
                None => true,
            },
            exists|ids: Seq<NodeId>| {
                &&& ids.no_duplicates()
                &&& ids.len() == rebuilt
                &&& forall|y: NodeId| #[trigger] ids.contains(y) <==> (final(self).live(y) && (positions@.contains(
                    final(self).node_of(y).pos) || old(self).touches(final(self).node_of(y).pos, positions@)))
            },
    {
        let touched = self.touched_positions(positions);
        let mut ids = self.restructure(positions, world);
        let ghost placed = ids@;
        let ghost mid = *self;
        self.add_nodes_at(&mut ids, touched.as_slice());
        proof {
            assert forall|y: NodeId| #[trigger] ids@.contains(y) implies mid.live(y) && has_reading(world@, mid.node_of(y).pos) by {
                if !placed.contains(y) {
                    let p = choose|p: BlockPos| #[trigger] touched@.contains(p) && mid.id_at(p) == Some(y);
                    assert(mid.positions.has(p));
                    if !positions@.contains(p) {
                        assert(mid.id_at(p) == old(self).id_at(p));
                    }
                }
            }
        }
        self.rebuild_all(ids.as_slice(), world);
        proof {
            let after = *self;
            assert forall|y: NodeId| #[trigger] ids@.contains(y) <==> (after.live(y) && (positions@.contains(
                after.node_of(y).pos) || old(self).touches(after.node_of(y).pos, positions@))) by {
                if after.live(y) {
                    let p = after.node_of(y).pos;
                    assert(holds(after.slots@, y));
                    assert(after.id_at(p) == Some(y));
                    assert(mid.id_at(p) == Some(y));
                    assert(mid.positions.has(p));
                    assert(held(mid.slots@, y).pos == p);
                    if old(self).touches(p, positions@) {
                        assert(touched@.contains(p));
                    }
                }
                if ids@.contains(y) && !placed.contains(y) {
                    let p = choose|p: BlockPos| #[trigger] touched@.contains(p) && mid.id_at(p) == Some(y);
                    assert(mid.positions.has(p));
                    assert(held(mid.slots@, y).pos == p);
                    assert(after.node_of(y).pos == p);
                }
            }
            assert forall|p: BlockPos| #[trigger] positions@.contains(p) implies recompiled_at(old(self), &after, p,
                reading_of(world@, p)) by {
                assert(recompiled_at(old(self), &mid, p, reading_of(world@, p)));
                match mid.id_at(p) {
                    Some(y) => {
                        assert(mid.positions.has(p));
                        assert(placed.contains(y));
                        assert(ids@.contains(y));
                    },
                    None => {},
                }
            }
            assert forall|p: BlockPos| (positions@.contains(p) || old(self).touches(p, positions@)) implies match #[trigger] after.id_at(p) {
                Some(y) => {
                    let r = reading_of(world@, p);
                    &&& after.node_of(y).state == r.state
                    &&& positions_ascending(after.node_of(y).dependencies@)
                    &&& forall|q: BlockPos| after.node_of(y).dependencies@.contains(q) <==> r.dependencies@.contains(q)
                },
                None => true,
            } by {
                match after.id_at(p) {
                    Some(y) => {
                        assert(mid.id_at(p) == Some(y));
                        assert(mid.positions.has(p));
                        assert(held(mid.slots@, y).pos == p);
                        if positions@.contains(p) {
                            assert(placed.contains(y));
                        } else {
                            assert(touched@.contains(p));
                        }
                        assert(ids@.contains(y));
                    },
                    None => {},
                }
            }
            assert forall|p: BlockPos| !positions@.contains(p) implies match #[trigger] old(self).id_at(p) {
                Some(x) => after.live(x) && after.node_of(x).pos == p && after.node_of(x).signature
                    == old(self).node_of(x).signature && (!old(self).touches(p, positions@) ==> after.node_of(x)
                    == old(self).node_of(x)),
                None => true,
            } by {
                match old(self).id_at(p) {
                    Some(x) => {
                        assert(mid.id_at(p) == Some(x));
                        assert(mid.positions.has(p));
                        assert(holds(mid.slots@, x));
                        assert(mid.node_of(x) == old(self).node_of(x));
                        if !old(self).touches(p, positions@) {
                            if ids@.contains(x) {
                                if placed.contains(x) {
                                    assert(positions@.contains(mid.node_of(x).pos));
                                } else {
                                    let q = choose|q: BlockPos| #[trigger] touched@.contains(q) && mid.id_at(q) == Some(x);
                                    assert(mid.positions.has(q));
                                    assert(held(mid.slots@, x).pos == q);
                                }
                            }
                        }
                    },
                    None => {},
                }
            }
            assert(ids@.no_duplicates()) by {
                assert forall|a: int, b: int| 0 <= a < ids@.len() && 0 <= b < ids@.len() && a != b implies ids@[a]
                    != ids@[b] by {
                    if a < b {
                        assert(id_lt(ids@[a], ids@[b]));
                    } else {
                        assert(id_lt(ids@[b], ids@[a]));
                    }
                }
            }
        }
        ids.len()
    }

    /// Compiles a graph from the readings of a world's blocks: a node for
    /// each block that compiles, with the reading's state, signature and
    /// dependencies, sorted and without repeats.
    pub fn compile(world: &[BlockReading]) -> (graph: CompiledGraph)
        requires
            readings_distinct(world@),
            world@.len() <= u32::MAX,
            readings_total(world@) <= usize::MAX,
        ensures
            graph.valid(),
            forall|p: BlockPos| #[trigger] graph.id_at(p) is Some <==> (has_reading(world@, p) && compiles(
                reading_of(world@, p).signature)),
            forall|p: BlockPos| match #[trigger] graph.id_at(p) {
                Some(y) => {
                    let r = reading_of(world@, p);
                    &&& graph.node_of(y).state == r.state
                    &&& Some(graph.node_of(y).signature) == r.signature
                    &&& positions_ascending(graph.node_of(y).dependencies@)
                    &&& forall|q: BlockPos| graph.node_of(y).dependencies@.contains(q) <==> r.dependencies@.contains(q)
                },
                None => true,
            },
    {
        let mut positions: Vec<BlockPos> = Vec::new();
        let mut k: usize = 0;
        while k < world.len()
            invariant
                k <= world@.len(),
                positions@.len() == k,
                forall|i: int| 0 <= i < k ==> #[trigger] positions@[i] == world@[i].pos,
            decreases world@.len() - k,
        {
            positions.push(world[k].pos);
            k += 1;
        }
        let mut graph = CompiledGraph::new();
        proof {
            assert(positions@.no_duplicates()) by {
                assert forall|a: int, b: int| 0 <= a < positions@.len() && 0 <= b < positions@.len() && a != b implies
                    positions@[a] != positions@[b] by {
                    if a < b {
                    } else {
                    }
                }
            }
            assert forall|p: BlockPos| #[trigger] positions@.contains(p) implies has_reading(world@, p) by {
                let i = choose|i: int| 0 <= i < positions@.len() && positions@[i] == p;
                assert(world@[i].pos == p);
            }
            assert forall|p: BlockPos| #[trigger] graph.touches(p, positions@) implies has_reading(world@, p) by {}
        }
        let ghost empty = graph;
        graph.recompile_positions(positions.as_slice(), world);
        proof {
            assert forall|p: BlockPos| has_reading(world@, p) implies #[trigger] positions@.contains(p) by {
                let i = choose|i: int| 0 <= i < world@.len() && #[trigger] world@[i].pos == p;
                assert(positions@[i] == p);
            }
            assert forall|p: BlockPos| #[trigger] graph.id_at(p) is Some <==> (has_reading(world@, p) && compiles(
                reading_of(world@, p).signature)) by {
                if has_reading(world@, p) {
                    assert(positions@.contains(p));
                }
            }
            assert forall|p: BlockPos| match #[trigger] graph.id_at(p) {
                Some(y) => {
                    let r = reading_of(world@, p);
                    &&& graph.node_of(y).state == r.state
                    &&& Some(graph.node_of(y).signature) == r.signature
                    &&& positions_ascending(graph.node_of(y).dependencies@)
                    &&& forall|q: BlockPos| graph.node_of(y).dependencies@.contains(q) <==> r.dependencies@.contains(q)
                },
                None => true,
            } by {
                match graph.id_at(p) {
                    Some(y) => {
                        if !positions@.contains(p) {
                            assert(graph.id_at(p) is None);
                        }
                        assert(recompiled_at(&empty, &graph, p, reading_of(world@, p)));
                    },
                    None => {},
                }
            }
        }
        graph
    }
}

/// A valid graph is consistent throughout: the handle of each position
/// names the node at that position and each node's position gives back its
/// handle; each node's dependencies are ascending and appear once each; the
/// reverse index lists under each position exactly the nodes that stand at
/// it or read it, in ascending handle order, and holds no empty list.
pub proof fn law_graph_consistent(graph: &CompiledGraph)
    requires
        graph.valid(),
    ensures
        forall|p: BlockPos, y: NodeId| #![trigger graph.id_at(p), graph.live(y)] graph.id_at(p) == Some(y) <==> (
            graph.live(y) && graph.node_of(y).pos == p),
        forall|y: NodeId| #[trigger] graph.live(y) ==> positions_ascending(graph.node_of(y).dependencies@),
        forall|p: BlockPos, y: NodeId| #[trigger] graph.listed_at(p).contains(y) <==> graph.reads(y, p),
        forall|p: BlockPos| #[trigger] ids_sorted(graph.listed_at(p)),
        forall|p: BlockPos| #[trigger] graph.indexed(p) <==> graph.listed_at(p).len() > 0,
{
    assert forall|p: BlockPos, y: NodeId| #![trigger graph.id_at(p), graph.live(y)] graph.id_at(p) == Some(y) <==> (
        graph.live(y) && graph.node_of(y).pos == p) by {
        if graph.live(y) && graph.node_of(y).pos == p {
            assert(holds(graph.slots@, y));
        }
    }
    assert forall|p: BlockPos, y: NodeId| #[trigger] graph.listed_at(p).contains(y) <==> graph.reads(y, p) by {
        assert(listed(&graph.reverse_dependencies, p).contains(y) <==> reads_from(graph.slots@, y, p));
    }
    assert forall|p: BlockPos| #[trigger] graph.indexed(p) <==> graph.listed_at(p).len() > 0 by {
        if graph.indexed(p) {
            assert(graph.reverse_dependencies.at(p)@.len() > 0);
        }
    }
    assert forall|p: BlockPos| #[trigger] ids_sorted(graph.listed_at(p)) by {
        assert(ids_sorted(listed(&graph.reverse_dependencies, p)));
    }
}

} // verus!
