//! The nodes that a block change can reach through the network: those that
//! read the block, and those fed by a wire within signal range of the wires
//! that the change starts updating.

use std::collections::VecDeque;

use vstd::prelude::*;

use crate::compiled::dense::DenseWireGraph;
use crate::compiled::dependencies::{ids_ascending, insert_id, listed_at};
use crate::compiled::network::{NetworkNodeId, NetworkWireId, NetworkWireTarget, MAX_WIRE_ATTENUATION};
use crate::compiled::static_network::StaticNetwork;
use crate::position::BlockPos;

verus! {

/// The farthest, in steps between neighbouring wires, that a change reaches.
pub open spec fn reach_limit() -> nat {
    (MAX_WIRE_ATTENUATION - 1) as nat
}

/// Whether wire `w` is next to wire `v`: one of its dependents or predecessors.
pub open spec fn next_to(graph: &DenseWireGraph, v: NetworkWireId, w: NetworkWireId) -> bool {
    graph.dependents_of(v.0 as int).contains(w) || graph.predecessors_of(v.0 as int).contains(w)
}

/// Whether wire `w` lies within `d` steps of the wires that a change at
/// `pos` starts updating, stepping only from wires of the table.
pub open spec fn within(graph: &DenseWireGraph, pos: BlockPos, w: NetworkWireId, d: nat) -> bool
    decreases d,
{
    if d == 0 {
        graph.starts_change(pos, w)
    } else {
        within(graph, pos, w, (d - 1) as nat) || exists|v: NetworkWireId|
            #![trigger next_to(graph, v, w)]
            within(graph, pos, v, (d - 1) as nat) && v.0 < graph.count() && next_to(graph, v, w)
    }
}

/// Whether wire `w` feeds node `n`.
pub open spec fn feeds_node(graph: &DenseWireGraph, w: int, n: NetworkNodeId) -> bool {
    exists|k: int| 0 <= k < graph.targets_of(w).len() && #[trigger] graph.targets_of(w)[k].target == n
}

/// Whether a change at `pos` reaches node `n`: the node reads `pos`, or a
/// wire of the table within signal range feeds it.
pub open spec fn affects(network: &StaticNetwork, pos: BlockPos, n: NetworkNodeId) -> bool {
    ||| listed_at(&network.reverse_dependencies, pos).contains(n)
    ||| exists|w: NetworkWireId|
        #[trigger] within(&network.wires, pos, w, reach_limit()) && w.0 < network.wires.count() && feeds_node(
            &network.wires,
            w.0 as int,
            n,
        )
}

/// A wire within `d` steps, but not within fewer, is next to a wire within
/// one step less.
proof fn lemma_within_step(graph: &DenseWireGraph, pos: BlockPos, w: NetworkWireId, d: nat)
    requires
        d > 0,
        within(graph, pos, w, d),
        !within(graph, pos, w, (d - 1) as nat),
    ensures
        exists|v: NetworkWireId|
            #![trigger next_to(graph, v, w)]
            within(graph, pos, v, (d - 1) as nat) && v.0 < graph.count() && next_to(graph, v, w),
{
}

/// A wire next to one within `d` steps is within `d + 1`.
proof fn lemma_within_next(graph: &DenseWireGraph, pos: BlockPos, v: NetworkWireId, w: NetworkWireId, d: nat)
    requires
        within(graph, pos, v, d),
        v.0 < graph.count(),
        next_to(graph, v, w),
    ensures
        within(graph, pos, w, d + 1),
{
    assert(((d + 1) - 1) as nat == d);
}

/// A wire within `d` steps is within any farther bound.
proof fn lemma_within_grows(graph: &DenseWireGraph, pos: BlockPos, w: NetworkWireId, d: nat, e: nat)
    requires
        d <= e,
        within(graph, pos, w, d),
    ensures
        within(graph, pos, w, e),
    decreases e - d,
{
    if d < e {
        lemma_within_grows(graph, pos, w, d, (e - 1) as nat);
    }
}

/// The distance marking a wire not yet reached.
pub open spec fn unseen() -> u8 {
    255
}

/// How many of the first `upto` wires are not yet reached.
pub open spec fn unseen_count(dist: Seq<u8>, upto: int) -> nat
    decreases upto,
{
    if upto <= 0 {
        0
    } else {
        unseen_count(dist, upto - 1) + if dist[upto - 1] == unseen() {
            1nat
        } else {
            0nat
        }
    }
}

proof fn lemma_unseen_mark(dist: Seq<u8>, i: int, value: u8, upto: int)
    requires
        0 <= i < dist.len(),
        upto <= dist.len(),
        dist[i] == unseen(),
        value != unseen(),
    ensures
        unseen_count(dist.update(i, value), upto) + (if i < upto {
            1nat
        } else {
            0nat
        }) == unseen_count(dist, upto),
    decreases upto,
{
    if upto > 0 {
        lemma_unseen_mark(dist, i, value, upto - 1);
    }
}

/// Whether `queue` holds wire `w`.
pub open spec fn queued(queue: Seq<(NetworkWireId, u8)>, w: int) -> bool {
    exists|i: int| 0 <= i < queue.len() && #[trigger] queue[i].0.0 == w
}

/// What the search keeps true: reached wires carry their distance, lie
/// within it, and those taken off the queue have all their neighbours
/// reached no farther than one step on.
#[verifier::opaque]
pub open spec fn search_state(
    graph: &DenseWireGraph,
    pos: BlockPos,
    dist: Seq<u8>,
    done: Seq<bool>,
    queue: Seq<(NetworkWireId, u8)>,
    cur: int,
) -> bool {
    let n = graph.count();
    &&& dist.len() == n
    &&& done.len() == n
    &&& 0 <= cur <= reach_limit()
    &&& forall|w: int|
        0 <= w < n && #[trigger] dist[w] != unseen() ==> dist[w] <= reach_limit() && dist[w] <= cur + 1 && within(
            graph,
            pos,
            NetworkWireId(w as u32),
            dist[w] as nat,
        )
    &&& forall|w: int| 0 <= w < n && #[trigger] done[w] ==> dist[w] != unseen()
    &&& forall|w: int| 0 <= w < n ==> (#[trigger] queued(queue, w) <==> (dist[w] != unseen() && !done[w]))
    &&& forall|i: int|
        0 <= i < queue.len() ==> {
            let (w, d) = #[trigger] queue[i];
            &&& w.0 < n
            &&& dist[w.0 as int] == d
            &&& cur <= d <= cur + 1
        }
    &&& forall|i: int, j: int| 0 <= i < j < queue.len() ==> queue[i].1 <= queue[j].1
    &&& forall|i: int, j: int| 0 <= i < j < queue.len() ==> queue[i].0 != queue[j].0
    &&& forall|w: int| 0 <= w < n && graph.starts_change(pos, NetworkWireId(w as u32)) ==> #[trigger] dist[w] == 0
    &&& forall|v: int, u: NetworkWireId|
        #![trigger done[v], next_to(graph, NetworkWireId(v as u32), u)]
        0 <= v < n && done[v] && dist[v] < reach_limit() && next_to(graph, NetworkWireId(v as u32), u)
            ==> u.0 < n && dist[u.0 as int] != unseen() && dist[u.0 as int] <= dist[v] + 1
}

/// Whether `affected` lists, ascending and once each, the nodes reading
/// `pos` and those fed by the wires taken off the queue.
#[verifier::opaque]
pub open spec fn collected(network: &StaticNetwork, pos: BlockPos, done: Seq<bool>, affected: Seq<NetworkNodeId>) -> bool {
    &&& ids_ascending(affected)
    &&& forall|n: NetworkNodeId|
        #[trigger] affected.contains(n) <==> (listed_at(&network.reverse_dependencies, pos).contains(n) || exists|w: int|
            0 <= w < network.wires.count() && #[trigger] done[w] && feeds_node(&network.wires, w, n))
}

/// After the search, every wire within `d` steps, up to the signal range,
/// has been reached no farther than `d`.
proof fn lemma_search_complete(
    graph: &DenseWireGraph,
    pos: BlockPos,
    dist: Seq<u8>,
    done: Seq<bool>,
    cur: int,
    w: NetworkWireId,
    d: nat,
)
    requires
        search_state(graph, pos, dist, done, Seq::empty(), cur),
        d <= reach_limit(),
        within(graph, pos, w, d),
        w.0 < graph.count(),
    ensures
        dist[w.0 as int] != unseen(),
        dist[w.0 as int] <= d,
        done[w.0 as int],
    decreases d,
{
    reveal(search_state);
    let n = graph.count();
    assert(!queued(Seq::<(NetworkWireId, u8)>::empty(), w.0 as int));
    assert(NetworkWireId(w.0 as int as u32) == w);
    if d == 0 {
        assert(graph.starts_change(pos, w));
        assert(dist[w.0 as int] == 0);
    } else if within(graph, pos, w, (d - 1) as nat) {
        lemma_search_complete(graph, pos, dist, done, cur, w, (d - 1) as nat);
    } else {
        lemma_within_step(graph, pos, w, d);
        let v = choose|v: NetworkWireId|
            #![trigger next_to(graph, v, w)]
            within(graph, pos, v, (d - 1) as nat) && v.0 < graph.count() && next_to(graph, v, w);
        lemma_search_complete(graph, pos, dist, done, cur, v, (d - 1) as nat);
        assert(NetworkWireId(v.0 as int as u32) == v);
        assert(done[v.0 as int]);
        assert(dist[v.0 as int] < reach_limit());
        assert(next_to(graph, NetworkWireId(v.0 as int as u32), w));
    }
}

/// Adds the ids of `ids` to ascending ids.
fn insert_all(affected: &mut Vec<NetworkNodeId>, ids: &[NetworkNodeId])
    requires
        ids_ascending(old(affected)@),
    ensures
        ids_ascending(final(affected)@),
        forall|n: NetworkNodeId| #[trigger] final(affected)@.contains(n) <==> (old(affected)@.contains(n) || ids@.contains(n)),
{
    let mut k: usize = 0;
    while k < ids.len()
        invariant
            k <= ids@.len(),
            ids_ascending(affected@),
            forall|n: NetworkNodeId| #[trigger] affected@.contains(n) <==> (old(affected)@.contains(n) || ids@.take(k as int).contains(n)),
        decreases ids@.len() - k,
    {
        let ghost prior = affected@;
        insert_id(affected, ids[k]);
        proof {
            let taken = ids@.take(k + 1);
            assert(taken =~= ids@.take(k as int).push(ids@[k as int]));
            assert forall|n: NetworkNodeId| #[trigger] affected@.contains(n) <==> (old(affected)@.contains(n) || taken.contains(n)) by {
                if taken.contains(n) {
                    let j = choose|j: int| 0 <= j < taken.len() && taken[j] == n;
                    if j < k {
                        assert(ids@.take(k as int)[j] == n);
                    }
                }
                if ids@.take(k as int).contains(n) {
                    let j = choose|j: int| 0 <= j < k && ids@.take(k as int)[j] == n;
                    assert(taken[j] == n);
                }
                if n == ids@[k as int] {
                    assert(taken[k as int] == n);
                }
            }
        }
        k += 1;
    }
    proof {
        assert(ids@.take(ids@.len() as int) =~= ids@);
    }
}

/// Adds the nodes that `targets` feed to ascending ids.
fn insert_targets(affected: &mut Vec<NetworkNodeId>, targets: &[NetworkWireTarget])
    requires
        ids_ascending(old(affected)@),
    ensures
        ids_ascending(final(affected)@),
        forall|n: NetworkNodeId| #[trigger] final(affected)@.contains(n) <==> (old(affected)@.contains(n) || exists|j: int|
            0 <= j < targets@.len() && #[trigger] targets@[j].target == n),
{
    let mut t: usize = 0;
    while t < targets.len()
        invariant
            t <= targets@.len(),
            ids_ascending(affected@),
            forall|n: NetworkNodeId| #[trigger] affected@.contains(n) <==> (old(affected)@.contains(n) || exists|j: int|
                0 <= j < t && #[trigger] targets@[j].target == n),
        decreases targets@.len() - t,
    {
        let ghost prior = affected@;
        insert_id(affected, targets[t].target);
        proof {
            assert forall|n: NetworkNodeId| #[trigger] affected@.contains(n) <==> (old(affected)@.contains(n) || exists|j: int|
                0 <= j < t + 1 && #[trigger] targets@[j].target == n) by {
                if exists|j: int| 0 <= j < t + 1 && #[trigger] targets@[j].target == n {
                    let j = choose|j: int| 0 <= j < t + 1 && #[trigger] targets@[j].target == n;
                    if j < t {
                        assert(prior.contains(n));
                    }
                }
                if exists|j: int| 0 <= j < t && #[trigger] targets@[j].target == n {
                    let j = choose|j: int| 0 <= j < t && #[trigger] targets@[j].target == n;
                    assert(0 <= j < t + 1);
                }
            }
        }
        t += 1;
    }
}

impl StaticNetwork {
    /// The search's start: every wire of the table where a change at `pos`
    /// starts an update, reached at distance 0 and queued.
    #[verifier::rlimit(40)]
    fn seed_search(&self, pos: BlockPos) -> (result: (Vec<u8>, VecDeque<(NetworkWireId, u8)>))
        requires
            self.wires.well_formed(),
            self.wires.count() <= u32::MAX,
            self.wires.tables_in_bounds(),
        ensures
            search_state(&self.wires, pos, result.0@, Seq::new(self.wires.count() as nat, |w: int| false), result.1@, 0),
    {
        let ghost graph = self.wires;
        let count = self.wires.len();
        let mut dist: Vec<u8> = Vec::new();
        let mut i: usize = 0;
        while i < count
            invariant
                count == graph.count(),
                i <= count,
                dist@.len() == i,
                forall|w: int| 0 <= w < i ==> #[trigger] dist@[w] == unseen(),
            decreases count - i,
        {
            dist.push(255);
            i += 1;
        }
        let mut queue: VecDeque<(NetworkWireId, u8)> = VecDeque::new();
        let starts = self.wires.starts_for_change(pos);
        let mut k: usize = 0;
        while k < starts.len()
            invariant
                graph == self.wires,
                count == graph.count(),
                k <= starts@.len(),
                forall|wire: NetworkWireId| starts@.contains(wire) <==> graph.starts_change(pos, wire),
                dist@.len() == count,
                forall|w: int| 0 <= w < count ==> (#[trigger] dist@[w] == 0 || dist@[w] == unseen()),
                forall|w: int|
                    0 <= w < count && #[trigger] dist@[w] == 0 ==> graph.starts_change(pos, NetworkWireId(w as u32)),
                forall|q: int| 0 <= q < k && starts@[q].0 < count ==> #[trigger] dist@[starts@[q].0 as int] == 0,
                forall|w: int| 0 <= w < count ==> (#[trigger] queued(queue@, w) <==> dist@[w] == 0),
                forall|q: int|
                    0 <= q < queue@.len() ==> (#[trigger] queue@[q]).0.0 < count && queue@[q].1 == 0 && dist@[queue@[q].0.0 as int] == 0,
                forall|a: int, b: int| 0 <= a < b < queue@.len() ==> queue@[a].0 != queue@[b].0,
            decreases starts@.len() - k,
        {
            let start = starts[k];
            if start.index() < count && dist[start.index()] == 255 {
                let ghost prior_queue = queue@;
                let ghost prior_dist = dist@;
                dist.set(start.index(), 0);
                queue.push_back((start, 0));
                proof {
                    assert(starts@.contains(start));
                    assert(NetworkWireId(start.0 as int as u32) == start);
                    assert forall|a: int, b: int| 0 <= a < b < queue@.len() implies queue@[a].0 != queue@[b].0 by {
                        assert(queue@[a] == prior_queue[a]);
                        if b < prior_queue.len() {
                            assert(queue@[b] == prior_queue[b]);
                        } else {
                            assert(prior_dist[prior_queue[a].0.0 as int] == 0);
                        }
                    }
                    assert forall|w: int| 0 <= w < count implies (#[trigger] queued(queue@, w) <==> dist@[w] == 0) by {
                        if queued(prior_queue, w) {
                            let q = choose|q: int| 0 <= q < prior_queue.len() && #[trigger] prior_queue[q].0.0 == w;
                            assert(queue@[q] == prior_queue[q]);
                        }
                        if w == start.0 {
                            assert(queue@[prior_queue.len() as int].0.0 == w);
                        }
                        if queued(queue@, w) {
                            let q = choose|q: int| 0 <= q < queue@.len() && #[trigger] queue@[q].0.0 == w;
                            if q < prior_queue.len() {
                                assert(queue@[q] == prior_queue[q]);
                            }
                        }
                    }
                    assert forall|q: int| 0 <= q < queue@.len() implies (#[trigger] queue@[q]).0.0 < count && queue@[q].1 == 0
                        && dist@[queue@[q].0.0 as int] == 0 by {
                        if q < prior_queue.len() {
                            assert(queue@[q] == prior_queue[q]);
                        }
                    }
                }
            } else {
                proof {
                    if start.0 < count {
                        assert(dist@[start.0 as int] == 0);
                    }
                }
            }
            k += 1;
        }
        proof {
            reveal(search_state);
            let done = Seq::new(count as nat, |w: int| false);
            assert forall|w: int| 0 <= w < count && graph.starts_change(pos, NetworkWireId(w as u32)) implies #[trigger] dist@[w] == 0 by {
                let wire = NetworkWireId(w as u32);
                assert((w as u32) as int == w);
                assert(starts@.contains(wire));
                let q = choose|q: int| 0 <= q < starts@.len() && starts@[q] == wire;
                assert(starts@[q].0 as int == w);
            }
            assert forall|w: int| 0 <= w < count && #[trigger] dist@[w] != unseen() implies dist@[w] <= reach_limit()
                && dist@[w] <= 0 + 1 && within(&graph, pos, NetworkWireId(w as u32), dist@[w] as nat) by {
                assert(dist@[w] == 0);
            }
            assert forall|w: int| 0 <= w < count implies (#[trigger] queued(queue@, w) <==> (dist@[w] != unseen() && !done[w])) by {
            }
        }
        (dist, queue)
    }

    /// The nodes that a change at `pos` can reach, ascending and once each:
    /// the nodes that read `pos`, and the nodes fed by every wire within 14
    /// steps of the wires that the change starts updating, stepping between
    /// dependents and predecessors.
    #[verifier::rlimit(40)]
    pub fn affected_nodes(&self, pos: BlockPos) -> (affected: Vec<NetworkNodeId>)
        requires
            self.wires.well_formed(),
            self.wires.count() <= u32::MAX,
        ensures
            ids_ascending(affected@),
            forall|n: NetworkNodeId| #[trigger] affected@.contains(n) <==> affects(self, pos, n),
    {
        proof {
            self.wires.lemma_well_formed_in_bounds();
        }
        let ghost graph = self.wires;
        let ghost count = graph.count();
        let mut affected: Vec<NetworkNodeId> = Vec::new();
        insert_all(&mut affected, self.dependents(pos));
        let (mut dist, mut queue) = self.seed_search(pos);
        let ghost mut done: Seq<bool> = Seq::new(count as nat, |w: int| false);
        let ghost mut cur: int = 0;
        proof {
            reveal(collected);
        }
        loop
            invariant
                graph == self.wires,
                count == graph.count(),
                graph.well_formed(),
                graph.tables_in_bounds(),
                search_state(&graph, pos, dist@, done, queue@, cur),
                collected(self, pos, done, affected@),
                ids_ascending(affected@),
                done.len() == count,
            ensures
                queue@.len() == 0,
                search_state(&graph, pos, dist@, done, queue@, cur),
                collected(self, pos, done, affected@),
            decreases 2 * unseen_count(dist@, count as int) + queue@.len(),
        {
            let ghost before_pop = queue@;
            let ghost old_cur = cur;
            let (wire, distance) = match queue.pop_front() {
                Some(entry) => entry,
                None => {
                    break;
                },
            };
            let ghost mid_dist = dist@;
            let ghost mid_queue = queue@;
            proof {
                assert(before_pop[0] == (wire, distance));
                assert(queue@ =~= before_pop.subrange(1, before_pop.len() as int));
                cur = distance as int;
                lemma_popped(&graph, pos, mid_dist, done, before_pop, old_cur, wire, distance);
            }
            let ghost start_affected = affected@;
            insert_targets(&mut affected, self.wires.targets(wire));
            if distance < MAX_WIRE_ATTENUATION - 1 {
                let dependents = self.wires.dependents(wire);
                visit_neighbours(dependents, distance + 1, &mut dist, &mut queue, Ghost(graph), Ghost(pos), Ghost(wire), Ghost(mid_dist), Ghost(mid_queue), Ghost(cur));
                let ghost after_dependents = dist@;
                let predecessors = self.wires.predecessors(wire);
                visit_neighbours(predecessors, distance + 1, &mut dist, &mut queue, Ghost(graph), Ghost(pos), Ghost(wire), Ghost(mid_dist), Ghost(mid_queue), Ghost(cur));
                proof {
                    assert forall|q: int| 0 <= q < dependents@.len() implies #[trigger] dist@[dependents@[q].0 as int] != unseen()
                        && dist@[dependents@[q].0 as int] <= cur + 1 by {
                        assert(after_dependents[dependents@[q].0 as int] != unseen());
                    }
                }
            }
            proof {
                let prior_done = done;
                done = done.update(wire.0 as int, true);
                lemma_step_state(&graph, pos, dist@, mid_dist, before_pop, mid_queue, queue@, prior_done, done, old_cur, cur, wire, distance);
                lemma_step_collected(self, pos, prior_done, done, start_affected, affected@, wire.0 as int, graph.targets_of(wire.0 as int));
            }
        }
        proof {
            assert(queue@ =~= Seq::<(NetworkWireId, u8)>::empty());
            lemma_search_result(self, pos, dist@, done, cur, affected@);
        }
        affected
    }
}

/// When the queue is empty, the collected nodes are exactly those that the
/// change affects.
proof fn lemma_search_result(
    network: &StaticNetwork,
    pos: BlockPos,
    dist: Seq<u8>,
    done: Seq<bool>,
    cur: int,
    affected: Seq<NetworkNodeId>,
)
    requires
        search_state(&network.wires, pos, dist, done, Seq::empty(), cur),
        collected(network, pos, done, affected),
        network.wires.count() <= u32::MAX,
    ensures
        ids_ascending(affected),
        forall|n: NetworkNodeId| #[trigger] affected.contains(n) <==> affects(network, pos, n),
{
    reveal(collected);
    let graph = network.wires;
    let count = graph.count();
    assert forall|n: NetworkNodeId| #[trigger] affected.contains(n) <==> affects(network, pos, n) by {
        if affected.contains(n) && !listed_at(&network.reverse_dependencies, pos).contains(n) {
            let w = choose|w: int| 0 <= w < count && #[trigger] done[w] && feeds_node(&graph, w, n);
            let wire = NetworkWireId(w as u32);
            assert((w as u32) as int == w);
            reveal(search_state);
            assert(dist[w] != unseen());
            lemma_within_grows(&graph, pos, wire, dist[w] as nat, reach_limit());
            assert(within(&network.wires, pos, wire, reach_limit()));
        }
        if affects(network, pos, n) && !listed_at(&network.reverse_dependencies, pos).contains(n) {
            let wire = choose|wire: NetworkWireId|
                #[trigger] within(&network.wires, pos, wire, reach_limit()) && wire.0 < network.wires.count() && feeds_node(
                    &network.wires,
                    wire.0 as int,
                    n,
                );
            lemma_search_complete(&graph, pos, dist, done, cur, wire, reach_limit());
            assert(done[wire.0 as int]);
        }
    }
}

/// What taking the first entry off the queue tells: its wire is in the
/// table, reached at its distance and not elsewhere in the queue, and every
/// reached wire lies within one step past it.
proof fn lemma_popped(
    graph: &DenseWireGraph,
    pos: BlockPos,
    dist: Seq<u8>,
    done: Seq<bool>,
    before_pop: Seq<(NetworkWireId, u8)>,
    old_cur: int,
    wire: NetworkWireId,
    distance: u8,
)
    requires
        search_state(graph, pos, dist, done, before_pop, old_cur),
        graph.well_formed(),
        before_pop.len() > 0,
        before_pop[0] == (wire, distance),
    ensures
        wire.0 < graph.count(),
        dist[wire.0 as int] == distance,
        old_cur <= distance <= old_cur + 1,
        NetworkWireId(wire.0 as int as u32) == wire,
        distance <= reach_limit(),
        graph.wire_entry_valid(wire.0 as int),
        forall|q: int| 0 <= q < graph.dependents_of(wire.0 as int).len() ==> (#[trigger] graph.dependents_of(wire.0 as int)[q]).0
            < graph.count() && next_to(graph, wire, graph.dependents_of(wire.0 as int)[q]),
        forall|q: int| 0 <= q < graph.predecessors_of(wire.0 as int).len() ==> (#[trigger] graph.predecessors_of(wire.0 as int)[q]).0
            < graph.count() && next_to(graph, wire, graph.predecessors_of(wire.0 as int)[q]),
        forall|i: int| 0 <= i < graph.count() && dist[i] != unseen() ==> #[trigger] dist[i] <= distance + 1,
        forall|i: int| 0 <= i < before_pop.len() - 1 ==> (#[trigger] before_pop.subrange(1, before_pop.len() as int)[i]).0.0 != wire.0,
        dist.len() == graph.count(),
{
    reveal(search_state);
    let w = wire.0 as int;
    assert forall|i: int| 0 <= i < before_pop.len() - 1 implies (#[trigger] before_pop.subrange(1, before_pop.len() as int)[i]).0.0 != wire.0 by {
        assert(before_pop.subrange(1, before_pop.len() as int)[i] == before_pop[i + 1]);
        assert(before_pop[0].0 != before_pop[i + 1].0);
    }
    assert(before_pop[0].0.0 == w);
    assert(graph.wire_entry_valid(w));
    assert forall|q: int| 0 <= q < graph.dependents_of(w).len() implies (#[trigger] graph.dependents_of(w)[q]).0
        < graph.count() && next_to(graph, wire, graph.dependents_of(w)[q]) by {
        assert(graph.dependents_of(w).contains(graph.dependents_of(w)[q]));
    }
    assert forall|q: int| 0 <= q < graph.predecessors_of(w).len() implies (#[trigger] graph.predecessors_of(w)[q]).0
        < graph.count() && next_to(graph, wire, graph.predecessors_of(w)[q]) by {
        assert(graph.predecessors_of(w).contains(graph.predecessors_of(w)[q]));
    }
}

/// Reaches the unreached wires among `neighbours`, all next to `wire`, at
/// one step past `cur`, and queues them.
fn visit_neighbours(
    neighbours: &[NetworkWireId],
    next: u8,
    dist: &mut Vec<u8>,
    queue: &mut VecDeque<(NetworkWireId, u8)>,
    Ghost(graph): Ghost<DenseWireGraph>,
    Ghost(pos): Ghost<BlockPos>,
    Ghost(wire): Ghost<NetworkWireId>,
    Ghost(mid_dist): Ghost<Seq<u8>>,
    Ghost(mid_queue): Ghost<Seq<(NetworkWireId, u8)>>,
    Ghost(cur): Ghost<int>,
)
    requires
        0 <= cur < reach_limit(),
        next == cur + 1,
        old(dist)@.len() == mid_dist.len(),
        forall|q: int| 0 <= q < neighbours@.len() ==> (#[trigger] neighbours@[q]).0 < mid_dist.len() && next_to(&graph, wire, neighbours@[q]),
        forall|i: int| 0 <= i < mid_dist.len() && mid_dist[i] != unseen() ==> #[trigger] old(dist)@[i] == mid_dist[i],
        forall|i: int| 0 <= i < mid_dist.len() && mid_dist[i] != unseen() ==> #[trigger] mid_dist[i] <= cur + 1,
        forall|i: int| 0 <= i < mid_dist.len() && #[trigger] old(dist)@[i] != unseen() ==> mid_dist[i] != unseen() || old(dist)@[i] == cur + 1,
        forall|i: int| 0 <= i < mid_dist.len() && mid_dist[i] == unseen() && #[trigger] old(dist)@[i] != unseen() ==> next_to(&graph, wire, NetworkWireId(i as u32)),
        old(queue)@.len() >= mid_queue.len(),
        forall|q: int| 0 <= q < mid_queue.len() ==> #[trigger] old(queue)@[q] == mid_queue[q],
        forall|q: int| mid_queue.len() <= q < old(queue)@.len() ==> (#[trigger] old(queue)@[q]).1 == cur + 1
            && old(queue)@[q].0.0 < mid_dist.len() && mid_dist[old(queue)@[q].0.0 as int] == unseen()
            && old(dist)@[old(queue)@[q].0.0 as int] == cur + 1,
        forall|a: int, b: int| mid_queue.len() <= a < b < old(queue)@.len() ==> old(queue)@[a].0 != old(queue)@[b].0,
        forall|i: int| 0 <= i < mid_dist.len() ==> (#[trigger] queued(old(queue)@, i) <==> (queued(mid_queue, i) || (mid_dist[i] == unseen() && old(dist)@[i] != unseen()))),
        2 * unseen_count(old(dist)@, mid_dist.len() as int) + old(queue)@.len() <= 2 * unseen_count(mid_dist, mid_dist.len() as int) + mid_queue.len(),
    ensures
        final(dist)@.len() == mid_dist.len(),
        forall|q: int| 0 <= q < neighbours@.len() ==> #[trigger] final(dist)@[neighbours@[q].0 as int] != unseen()
            && final(dist)@[neighbours@[q].0 as int] <= cur + 1,
        forall|i: int| 0 <= i < mid_dist.len() && #[trigger] old(dist)@[i] != unseen() ==> final(dist)@[i] == old(dist)@[i],
        forall|i: int| 0 <= i < mid_dist.len() && mid_dist[i] != unseen() ==> #[trigger] final(dist)@[i] == mid_dist[i],
        forall|i: int| 0 <= i < mid_dist.len() && #[trigger] final(dist)@[i] != unseen() ==> mid_dist[i] != unseen() || final(dist)@[i] == cur + 1,
        forall|i: int| 0 <= i < mid_dist.len() && mid_dist[i] == unseen() && #[trigger] final(dist)@[i] != unseen() ==> next_to(&graph, wire, NetworkWireId(i as u32)),
        final(queue)@.len() >= mid_queue.len(),
        forall|q: int| 0 <= q < mid_queue.len() ==> #[trigger] final(queue)@[q] == mid_queue[q],
        forall|q: int| mid_queue.len() <= q < final(queue)@.len() ==> (#[trigger] final(queue)@[q]).1 == cur + 1
            && final(queue)@[q].0.0 < mid_dist.len() && mid_dist[final(queue)@[q].0.0 as int] == unseen()
            && final(dist)@[final(queue)@[q].0.0 as int] == cur + 1,
        forall|a: int, b: int| mid_queue.len() <= a < b < final(queue)@.len() ==> final(queue)@[a].0 != final(queue)@[b].0,
        forall|i: int| 0 <= i < mid_dist.len() ==> (#[trigger] queued(final(queue)@, i) <==> (queued(mid_queue, i) || (mid_dist[i] == unseen() && final(dist)@[i] != unseen()))),
        2 * unseen_count(final(dist)@, mid_dist.len() as int) + final(queue)@.len() <= 2 * unseen_count(mid_dist, mid_dist.len() as int) + mid_queue.len(),
{
    let ghost n = mid_dist.len() as int;
    let ghost start_dist = dist@;
    let mut j: usize = 0;
    while j < neighbours.len()
        invariant
            j <= neighbours@.len(),
            0 <= cur < reach_limit(),
            next == cur + 1,
            dist@.len() == n,
            n == mid_dist.len(),
            forall|q: int| 0 <= q < neighbours@.len() ==> (#[trigger] neighbours@[q]).0 < n && next_to(&graph, wire, neighbours@[q]),
            forall|q: int| 0 <= q < j ==> #[trigger] dist@[neighbours@[q].0 as int] != unseen() && dist@[neighbours@[q].0 as int] <= cur + 1,
            forall|i: int| 0 <= i < n && #[trigger] start_dist[i] != unseen() ==> dist@[i] == start_dist[i],
            forall|i: int| 0 <= i < n && mid_dist[i] != unseen() ==> #[trigger] start_dist[i] == mid_dist[i],
            forall|i: int| 0 <= i < n && mid_dist[i] != unseen() ==> #[trigger] mid_dist[i] <= cur + 1,
            forall|i: int| 0 <= i < n && #[trigger] start_dist[i] != unseen() ==> mid_dist[i] != unseen() || start_dist[i] == cur + 1,
            forall|i: int| 0 <= i < n && #[trigger] dist@[i] != unseen() ==> start_dist[i] != unseen() || dist@[i] == cur + 1,
            forall|i: int| 0 <= i < n && mid_dist[i] == unseen() && #[trigger] start_dist[i] != unseen() ==> next_to(&graph, wire, NetworkWireId(i as u32)),
            forall|i: int| 0 <= i < n && start_dist[i] == unseen() && #[trigger] dist@[i] != unseen() ==> next_to(&graph, wire, NetworkWireId(i as u32)),
            queue@.len() >= mid_queue.len(),
            forall|q: int| 0 <= q < mid_queue.len() ==> #[trigger] queue@[q] == mid_queue[q],
            forall|q: int| mid_queue.len() <= q < queue@.len() ==> (#[trigger] queue@[q]).1 == cur + 1
                && queue@[q].0.0 < n && mid_dist[queue@[q].0.0 as int] == unseen() && dist@[queue@[q].0.0 as int] == cur + 1,
            forall|a: int, b: int| mid_queue.len() <= a < b < queue@.len() ==> queue@[a].0 != queue@[b].0,
            forall|i: int| 0 <= i < n ==> (#[trigger] queued(queue@, i) <==> (queued(mid_queue, i) || (mid_dist[i] == unseen() && dist@[i] != unseen()))),
            2 * unseen_count(dist@, n) + queue@.len() <= 2 * unseen_count(mid_dist, n) + mid_queue.len(),
        decreases neighbours@.len() - j,
    {
        let u = neighbours[j];
        if dist[u.index()] == 255 {
            let ghost prior_dist = dist@;
            let ghost prior_queue = queue@;
            dist.set(u.index(), next);
            queue.push_back((u, next));
            proof {
                lemma_unseen_mark(prior_dist, u.0 as int, next, n);
                assert(NetworkWireId(u.0 as int as u32) == u);
                assert(start_dist[u.0 as int] == unseen());
                assert(mid_dist[u.0 as int] == unseen());
                assert forall|a: int, b: int| mid_queue.len() <= a < b < queue@.len() implies queue@[a].0 != queue@[b].0 by {
                    if b == queue@.len() - 1 {
                        assert(queue@[a] == prior_queue[a]);
                        assert(prior_dist[prior_queue[a].0.0 as int] == cur + 1);
                    } else {
                        assert(queue@[a] == prior_queue[a]);
                        assert(queue@[b] == prior_queue[b]);
                    }
                }
                assert forall|i: int| 0 <= i < n implies (#[trigger] queued(queue@, i) <==> (queued(mid_queue, i)
                    || (mid_dist[i] == unseen() && dist@[i] != unseen()))) by {
                    if queued(prior_queue, i) {
                        let q = choose|q: int| 0 <= q < prior_queue.len() && #[trigger] prior_queue[q].0.0 == i;
                        assert(queue@[q] == prior_queue[q]);
                    }
                    if i == u.0 {
                        assert(queue@[prior_queue.len() as int].0.0 == i);
                    }
                    if queued(queue@, i) {
                        let q = choose|q: int| 0 <= q < queue@.len() && #[trigger] queue@[q].0.0 == i;
                        if q < prior_queue.len() {
                            assert(queue@[q] == prior_queue[q]);
                            assert(queued(prior_queue, i));
                        }
                    }
                }
            }
        } else {
            proof {
                let x = u.0 as int;
                if start_dist[x] != unseen() {
                    if mid_dist[x] != unseen() {
                        assert(start_dist[x] == mid_dist[x]);
                    }
                }
            }
        }
        j += 1;
    }
    proof {
        assert forall|i: int| 0 <= i < n && mid_dist[i] != unseen() implies #[trigger] dist@[i] == mid_dist[i] by {
            assert(start_dist[i] == mid_dist[i]);
        }
        assert forall|i: int| 0 <= i < n && #[trigger] dist@[i] != unseen() implies mid_dist[i] != unseen() || dist@[i] == cur + 1 by {
            if start_dist[i] != unseen() {
                assert(dist@[i] == start_dist[i]);
            }
        }
        assert forall|i: int| 0 <= i < n && mid_dist[i] == unseen() && #[trigger] dist@[i] != unseen() implies next_to(&graph, wire, NetworkWireId(i as u32)) by {
            if start_dist[i] != unseen() {
                assert(start_dist[i] != unseen());
            }
        }
    }
}

/// One step of the search keeps its state: the popped wire is done, and its
/// neighbours, when it was expanded, are reached one step on.
proof fn lemma_step_state(
    graph: &DenseWireGraph,
    pos: BlockPos,
    dist: Seq<u8>,
    mid_dist: Seq<u8>,
    before_pop: Seq<(NetworkWireId, u8)>,
    mid_queue: Seq<(NetworkWireId, u8)>,
    queue: Seq<(NetworkWireId, u8)>,
    prior_done: Seq<bool>,
    done: Seq<bool>,
    old_cur: int,
    cur: int,
    wire: NetworkWireId,
    distance: u8,
)
    requires
        search_state(graph, pos, mid_dist, prior_done, before_pop, old_cur),
        before_pop.len() > 0,
        before_pop[0] == (wire, distance),
        mid_queue == before_pop.subrange(1, before_pop.len() as int),
        cur == distance as int,
        done == prior_done.update(wire.0 as int, true),
        distance >= reach_limit() ==> dist == mid_dist && queue == mid_queue,
        distance < reach_limit() ==> {
            &&& dist.len() == mid_dist.len()
            &&& forall|i: int| 0 <= i < mid_dist.len() && mid_dist[i] != unseen() ==> #[trigger] dist[i] == mid_dist[i]
            &&& forall|i: int| 0 <= i < mid_dist.len() && #[trigger] dist[i] != unseen() ==> mid_dist[i] != unseen() || dist[i] == cur + 1
            &&& forall|i: int| 0 <= i < mid_dist.len() && mid_dist[i] == unseen() && #[trigger] dist[i] != unseen() ==> next_to(graph, wire, NetworkWireId(i as u32))
            &&& forall|q: int| 0 <= q < graph.dependents_of(wire.0 as int).len() ==> #[trigger] dist[graph.dependents_of(wire.0 as int)[q].0 as int] != unseen()
                && dist[graph.dependents_of(wire.0 as int)[q].0 as int] <= cur + 1
            &&& forall|q: int| 0 <= q < graph.predecessors_of(wire.0 as int).len() ==> #[trigger] dist[graph.predecessors_of(wire.0 as int)[q].0 as int] != unseen()
                && dist[graph.predecessors_of(wire.0 as int)[q].0 as int] <= cur + 1
            &&& queue.len() >= mid_queue.len()
            &&& forall|q: int| 0 <= q < mid_queue.len() ==> #[trigger] queue[q] == mid_queue[q]
            &&& forall|q: int| mid_queue.len() <= q < queue.len() ==> (#[trigger] queue[q]).1 == cur + 1
                && mid_dist[queue[q].0.0 as int] == unseen() && queue[q].0.0 < mid_dist.len()
                && dist[queue[q].0.0 as int] == cur + 1
            &&& forall|a: int, b: int| mid_queue.len() <= a < b < queue.len() ==> queue[a].0 != queue[b].0
            &&& forall|i: int| 0 <= i < mid_dist.len() ==> (#[trigger] queued(queue, i) <==> (queued(mid_queue, i) || (mid_dist[i] == unseen() && dist[i] != unseen())))
        },
        graph.well_formed(),
    ensures
        search_state(graph, pos, dist, done, queue, cur),
{
    reveal(search_state);
    let n = graph.count();
    let w = wire.0 as int;
    assert(before_pop[0].0.0 == w);
    assert(queued(before_pop, w));
    assert(w < n);
    assert(graph.wire_entry_valid(w));
    assert(mid_dist[w] == distance);
    assert(old_cur <= cur <= old_cur + 1);
    assert forall|i: int| 0 <= i < mid_queue.len() implies old_cur <= cur <= (#[trigger] mid_queue[i]).1 <= old_cur + 1 by {
        assert(mid_queue[i] == before_pop[i + 1]);
    }
    // the popped wire leaves the queue: it stood there once
    assert forall|i: int| 0 <= i < mid_queue.len() implies (#[trigger] mid_queue[i]).0.0 != w by {
        assert(mid_queue[i] == before_pop[i + 1]);
        if mid_queue[i].0.0 == w {
            assert(queued(before_pop, w));
        }
    }
    assert forall|i: int| 0 <= i < n implies (#[trigger] queued(queue, i) <==> (dist[i] != unseen() && !done[i])) by {
        if queued(mid_queue, i) {
            let q = choose|q: int| 0 <= q < mid_queue.len() && #[trigger] mid_queue[q].0.0 == i;
            assert(mid_queue[q] == before_pop[q + 1]);
            assert(queued(before_pop, i));
        }
        if i != w && queued(before_pop, i) {
            let q = choose|q: int| 0 <= q < before_pop.len() && #[trigger] before_pop[q].0.0 == i;
            assert(q != 0);
            assert(mid_queue[q - 1] == before_pop[q]);
            assert(queued(mid_queue, i));
        }
        if distance < reach_limit() {
            if queued(queue, i) && i == w {
                if queued(mid_queue, i) {
                    let q = choose|q: int| 0 <= q < mid_queue.len() && #[trigger] mid_queue[q].0.0 == i;
                }
            }
        } else {
            if queued(queue, i) && i == w {
                let q = choose|q: int| 0 <= q < mid_queue.len() && #[trigger] mid_queue[q].0.0 == i;
            }
        }
    }
    assert forall|i: int| 0 <= i < queue.len() implies {
        let (x, d) = #[trigger] queue[i];
        &&& x.0 < n
        &&& dist[x.0 as int] == d
        &&& cur <= d <= cur + 1
    } by {
        if i < mid_queue.len() {
            assert(mid_queue[i] == before_pop[i + 1]);
            let (x, d) = before_pop[i + 1];
            assert(mid_dist[x.0 as int] == d);
            assert(d != unseen());
        }
    }
    assert forall|i: int, j: int| 0 <= i < j < queue.len() implies queue[i].0 != queue[j].0 by {
        if j < mid_queue.len() {
            assert(mid_queue[i] == before_pop[i + 1]);
            assert(mid_queue[j] == before_pop[j + 1]);
        } else if i < mid_queue.len() {
            assert(queue[i] == mid_queue[i]);
            assert(mid_queue[i] == before_pop[i + 1]);
            let (x, d) = before_pop[i + 1];
            assert(mid_dist[x.0 as int] == d);
            assert(mid_dist[queue[j].0.0 as int] == unseen());
        }
    }
    assert forall|i: int, j: int| 0 <= i < j < queue.len() implies queue[i].1 <= queue[j].1 by {
        if j < mid_queue.len() {
            assert(mid_queue[i] == before_pop[i + 1]);
            assert(mid_queue[j] == before_pop[j + 1]);
        } else if i < mid_queue.len() {
            assert(mid_queue[i] == before_pop[i + 1]);
        }
    }
    assert forall|x: int| 0 <= x < n && #[trigger] dist[x] != unseen() implies dist[x] <= reach_limit() && dist[x] <= cur + 1
        && within(graph, pos, NetworkWireId(x as u32), dist[x] as nat) by {
        if mid_dist[x] != unseen() {
            assert(dist[x] == mid_dist[x]);
        } else {
            assert(distance < reach_limit());
            assert(dist[x] == cur + 1);
            let u = NetworkWireId(x as u32);
            assert(NetworkWireId(w as u32) == wire);
            assert(within(graph, pos, wire, distance as nat));
            assert(next_to(graph, wire, u));
            assert(NetworkWireId(wire.0 as int as u32) == wire);
            assert(within(graph, pos, wire, mid_dist[w] as nat));
            lemma_within_next(graph, pos, wire, u, distance as nat);
            assert(dist[x] as nat == distance as nat + 1);
        }
    }
    assert forall|v: int, u: NetworkWireId|
        #![trigger done[v], next_to(graph, NetworkWireId(v as u32), u)]
        0 <= v < n && done[v] && dist[v] < reach_limit() && next_to(graph, NetworkWireId(v as u32), u)
            implies u.0 < n && dist[u.0 as int] != unseen() && dist[u.0 as int] <= dist[v] + 1 by {
        if v == w {
            assert(NetworkWireId(v as u32) == wire);
            assert(dist[w] == mid_dist[w]);
            if graph.dependents_of(w).contains(u) {
                let q = choose|q: int| 0 <= q < graph.dependents_of(w).len() && graph.dependents_of(w)[q] == u;
                assert(graph.dependents_of(w)[q].0 < n);
                assert(dist[graph.dependents_of(w)[q].0 as int] != unseen());
            } else {
                let q = choose|q: int| 0 <= q < graph.predecessors_of(w).len() && graph.predecessors_of(w)[q] == u;
                assert(graph.predecessors_of(w)[q].0 < n);
                assert(dist[graph.predecessors_of(w)[q].0 as int] != unseen());
            }
        } else {
            assert(prior_done[v]);
            assert(mid_dist[v] != unseen());
            assert(dist[v] == mid_dist[v]);
            assert(mid_dist[u.0 as int] != unseen());
        }
    }
}

/// Taking a wire off the queue adds the nodes it feeds.
proof fn lemma_step_collected(
    network: &StaticNetwork,
    pos: BlockPos,
    prior_done: Seq<bool>,
    done: Seq<bool>,
    start_affected: Seq<NetworkNodeId>,
    affected: Seq<NetworkNodeId>,
    w: int,
    targets: Seq<NetworkWireTarget>,
)
    requires
        collected(network, pos, prior_done, start_affected),
        0 <= w < network.wires.count(),
        prior_done.len() == network.wires.count(),
        done == prior_done.update(w, true),
        targets == network.wires.targets_of(w),
        ids_ascending(affected),
        forall|n: NetworkNodeId| #[trigger] affected.contains(n) <==> (start_affected.contains(n) || exists|j: int|
            0 <= j < targets.len() && #[trigger] targets[j].target == n),
    ensures
        collected(network, pos, done, affected),
{
    reveal(collected);
    let count = network.wires.count();
    assert forall|n: NetworkNodeId| #[trigger] affected.contains(n) <==> (listed_at(&network.reverse_dependencies, pos).contains(n)
        || exists|x: int| 0 <= x < count && #[trigger] done[x] && feeds_node(&network.wires, x, n)) by {
        if start_affected.contains(n) && !listed_at(&network.reverse_dependencies, pos).contains(n) {
            let x = choose|x: int| 0 <= x < count && #[trigger] prior_done[x] && feeds_node(&network.wires, x, n);
            assert(done[x]);
        }
        if exists|j: int| 0 <= j < targets.len() && #[trigger] targets[j].target == n {
            assert(feeds_node(&network.wires, w, n));
            assert(done[w]);
        }
        if exists|x: int| 0 <= x < count && #[trigger] done[x] && feeds_node(&network.wires, x, n) {
            let x = choose|x: int| 0 <= x < count && #[trigger] done[x] && feeds_node(&network.wires, x, n);
            if x == w {
                let k = choose|k: int| 0 <= k < network.wires.targets_of(w).len() && #[trigger] network.wires.targets_of(w)[k].target == n;
                assert(targets[k].target == n);
            } else {
                assert(prior_done[x]);
            }
        }
    }
}

} // verus!
