//! The wire search of the network build: from a wire that a node reads,
//! back along the wires that power it, layer by layer, for at most fifteen
//! layers; every node that powers a wire found at depth `k` reaches the
//! reader through that wire with attenuation `k`, the fewest steps by which
//! any route reaches it.

use vstd::prelude::*;

use crate::compiled::dense::DenseWireGraph;
use crate::compiled::draft_order::EdgeDraft;
use crate::compiled::network::{NetworkInputKind, NetworkNodeId, NetworkWireId};

verus! {

/// How many layers the wire search takes at most: a signal fades to
/// nothing over fifteen wires.
pub const SEARCH_DEPTH: u8 = 15;

/// Whether every predecessor entry names a wire of the graph.
pub open spec fn predecessors_below(g: DenseWireGraph) -> bool {
    forall|t: int, k: int|
        0 <= t < g.count() && 0 <= k < g.predecessors_of(t).len() ==> (#[trigger] g.predecessors_of(t)[k]).0
            < g.count()
}

/// Whether wire `w` is at most `k` steps from `root`, each step from a wire
/// to one of the wires that power it.
pub open spec fn within(g: DenseWireGraph, root: int, w: int, k: nat) -> bool
    decreases k,
{
    if k == 0 {
        w == root
    } else {
        within(g, root, w, (k - 1) as nat) || (0 <= w < g.count() && exists|v: int|
            0 <= v < g.count() && within(g, root, v, (k - 1) as nat) && #[trigger] g.predecessors_of(v).contains(
                NetworkWireId(w as u32),
            ))
    }
}

/// Whether the fewest steps from `root` to wire `w` are `k`.
pub open spec fn at_distance(g: DenseWireGraph, root: int, w: int, k: nat) -> bool {
    within(g, root, w, k) && (k == 0 || !within(g, root, w, (k - 1) as nat))
}

/// Whether `edge` is a route of the search from `root`: a node that powers a
/// wire at distance `k` below the search depth reaches `target` at input
/// `kind` through that wire, with attenuation `k`.
pub open spec fn search_edge(
    g: DenseWireGraph,
    root: NetworkWireId,
    target: NetworkNodeId,
    kind: NetworkInputKind,
    edge: EdgeDraft,
) -> bool {
    exists|w: int, k: nat, j: int|
        #![trigger at_distance(g, root.0 as int, w, k), g.sources_of(w)[j]]
        0 <= w < g.count() && k < 15 && at_distance(g, root.0 as int, w, k) && 0 <= j < g.sources_of(w).len()
            && edge == (EdgeDraft {
            source: g.sources_of(w)[j].source,
            target,
            kind,
            attenuation: k as u8,
            source_wire: Some(NetworkWireId(w as u32)),
            target_wire: Some(root),
        })
}

proof fn lemma_within_mono(g: DenseWireGraph, root: int, w: int, a: nat, b: nat)
    requires
        a <= b,
        within(g, root, w, a),
    ensures
        within(g, root, w, b),
    decreases b - a,
{
    if a < b {
        lemma_within_mono(g, root, w, a, (b - 1) as nat);
    }
}

/// Once no wire lies at distance `d`, none lies farther.
proof fn lemma_no_farther(g: DenseWireGraph, root: int, d: nat, w: int, m: nat)
    requires
        d >= 1,
        forall|x: int| 0 <= x < g.count() ==> !#[trigger] at_distance(g, root, x, d),
        forall|x: int| #[trigger] within(g, root, x, d) ==> 0 <= x < g.count(),
        m >= d,
        within(g, root, w, m),
    ensures
        within(g, root, w, (d - 1) as nat),
    decreases m,
{
    if m == d {
        assert(!at_distance(g, root, w, d));
    } else {
        if within(g, root, w, (m - 1) as nat) {
            lemma_no_farther(g, root, d, w, (m - 1) as nat);
        } else {
            let v = choose|v: int|
                0 <= v < g.count() && within(g, root, v, (m - 1) as nat) && #[trigger] g.predecessors_of(v).contains(
                    NetworkWireId(w as u32),
                );
            lemma_no_farther(g, root, d, v, (m - 1) as nat);
            assert(within(g, root, w, d));
            assert(!at_distance(g, root, w, d));
        }
    }
}

proof fn lemma_within_range(g: DenseWireGraph, root: int, w: int, k: nat)
    requires
        0 <= root < g.count(),
        within(g, root, w, k),
    ensures
        0 <= w < g.count(),
    decreases k,
{
    if k > 0 && within(g, root, w, (k - 1) as nat) {
        lemma_within_range(g, root, w, (k - 1) as nat);
    }
}

/// The route edge through wire `w` at depth `k` from the `j`-th node that
/// powers it.
pub open spec fn route_edge(
    g: DenseWireGraph,
    root: NetworkWireId,
    target: NetworkNodeId,
    kind: NetworkInputKind,
    w: int,
    k: nat,
    j: int,
) -> EdgeDraft {
    EdgeDraft {
        source: g.sources_of(w)[j].source,
        target,
        kind,
        attenuation: k as u8,
        source_wire: Some(NetworkWireId(w as u32)),
        target_wire: Some(root),
    }
}

/// Whether `edge` is a route of the search through a wire at a distance
/// below `upto`.
pub open spec fn search_edge_below(
    g: DenseWireGraph,
    root: NetworkWireId,
    target: NetworkNodeId,
    kind: NetworkInputKind,
    upto: nat,
    edge: EdgeDraft,
) -> bool {
    exists|w: int, k: nat, j: int|
        #![trigger at_distance(g, root.0 as int, w, k), route_edge(g, root, target, kind, w, k, j)]
        0 <= w < g.count() && k < upto && at_distance(g, root.0 as int, w, k) && 0 <= j < g.sources_of(w).len()
            && edge == route_edge(g, root, target, kind, w, k, j)
}

/// Records, after the drafts already there, every route of the search from
/// wire `root` to input `kind` of node `target`: for each wire at distance
/// `k` below fifteen from `root`, going from a wire to the wires that power
/// it, an edge from each node that powers that wire, with attenuation `k`.
/// `marks` is scratch space, all clear before and after.
pub fn search_wire_routes(
    g: &DenseWireGraph,
    root: NetworkWireId,
    target: NetworkNodeId,
    kind: NetworkInputKind,
    drafts: &mut Vec<EdgeDraft>,
    marks: &mut Vec<bool>,
)
    requires
        g.tables_in_bounds(),
        predecessors_below(*g),
        root.0 < g.count(),
        g.count() <= u32::MAX,
        old(marks)@.len() == g.count(),
        forall|i: int| 0 <= i < g.count() ==> !(#[trigger] old(marks)@[i]),
    ensures
        final(marks)@.len() == g.count(),
        forall|i: int| 0 <= i < g.count() ==> !(#[trigger] final(marks)@[i]),
        final(drafts)@.len() >= old(drafts)@.len(),
        final(drafts)@.subrange(0, old(drafts)@.len() as int) == old(drafts)@,
        forall|e: EdgeDraft|
            #[trigger] final(drafts)@.subrange(old(drafts)@.len() as int, final(drafts)@.len() as int).contains(e)
                <==> search_edge_below(*g, root, target, kind, 15, e),
{
    let ghost r = root.0 as int;
    let ghost n = g.count();
    let ghost start = drafts@;
    let mut frontier: Vec<NetworkWireId> = Vec::new();
    frontier.push(root);
    let mut touched: Vec<NetworkWireId> = Vec::new();
    touched.push(root);
    marks.set(root.index(), true);
    let mut depth: u8 = 0;
    proof {
        assert forall|x: int| 0 <= x < n implies (#[trigger] marks@[x] <==> within(*g, r, x, 0)) by {}
        assert forall|x: int| 0 <= x < n && at_distance(*g, r, x, 0) implies #[trigger] frontier@.contains(NetworkWireId(x as u32)) by {
            assert(frontier@[0] == NetworkWireId(x as u32));
        }
        assert(drafts@.subrange(start.len() as int, drafts@.len() as int) =~= Seq::<EdgeDraft>::empty());
        assert forall|e: EdgeDraft| !search_edge_below(*g, root, target, kind, 0, e) by {}
    }
    loop
        invariant_except_break
            g.tables_in_bounds(),
            predecessors_below(*g),
            r == root.0,
            n == g.count(),
            0 <= r < n,
            n <= u32::MAX,
            depth < 15,
            marks@.len() == n,
            forall|x: int| 0 <= x < n ==> (#[trigger] marks@[x] <==> within(*g, r, x, depth as nat)),
            forall|q: int| 0 <= q < frontier@.len() ==> (#[trigger] frontier@[q]).0 < n && at_distance(
                *g,
                r,
                frontier@[q].0 as int,
                depth as nat,
            ),
            forall|x: int| 0 <= x < n && at_distance(*g, r, x, depth as nat) ==> #[trigger] frontier@.contains(NetworkWireId(x as u32)),
            forall|q: int| 0 <= q < touched@.len() ==> (#[trigger] touched@[q]).0 < n,
            forall|x: int| 0 <= x < n && #[trigger] marks@[x] ==> touched@.contains(NetworkWireId(x as u32)),
            drafts@.len() >= start.len(),
            drafts@.subrange(0, start.len() as int) == start,
            forall|e: EdgeDraft|
                #[trigger] drafts@.subrange(start.len() as int, drafts@.len() as int).contains(e)
                    <==> search_edge_below(*g, root, target, kind, depth as nat, e),
        ensures
            marks@.len() == n,
            forall|m: int| 0 <= m < touched@.len() ==> (#[trigger] touched@[m]).0 < n,
            forall|x: int| 0 <= x < n && #[trigger] marks@[x] ==> touched@.contains(NetworkWireId(x as u32)),
            drafts@.len() >= start.len(),
            drafts@.subrange(0, start.len() as int) == start,
            forall|e: EdgeDraft|
                #[trigger] drafts@.subrange(start.len() as int, drafts@.len() as int).contains(e)
                    <==> search_edge_below(*g, root, target, kind, 15, e),
        decreases 15 - depth,
    {
        let mut q: usize = 0;
        while q < frontier.len()
            invariant
                g.tables_in_bounds(),
                r == root.0,
                n == g.count(),
                depth < 15,
                q <= frontier@.len(),
                forall|i: int| 0 <= i < frontier@.len() ==> (#[trigger] frontier@[i]).0 < n && at_distance(
                    *g,
                    r,
                    frontier@[i].0 as int,
                    depth as nat,
                ),
                drafts@.len() >= start.len(),
                drafts@.subrange(0, start.len() as int) == start,
                forall|e: EdgeDraft|
                    #[trigger] drafts@.subrange(start.len() as int, drafts@.len() as int).contains(e)
                        <==> (search_edge_below(*g, root, target, kind, depth as nat, e) || exists|i: int, j: int|
                        0 <= i < q && 0 <= j < g.sources_of(frontier@[i].0 as int).len() && e == #[trigger] route_edge(
                            *g,
                            root,
                            target,
                            kind,
                            frontier@[i].0 as int,
                            depth as nat,
                            j,
                        )),
            decreases frontier@.len() - q,
        {
            let v = frontier[q];
            let sources = g.sources(v);
            let mut j: usize = 0;
            while j < sources.len()
                invariant
                    g.tables_in_bounds(),
                    r == root.0,
                    n == g.count(),
                    depth < 15,
                    q < frontier@.len(),
                    v == frontier@[q as int],
                    sources@ == g.sources_of(v.0 as int),
                    j <= sources@.len(),
                    drafts@.len() >= start.len(),
                    drafts@.subrange(0, start.len() as int) == start,
                    forall|e: EdgeDraft|
                        #[trigger] drafts@.subrange(start.len() as int, drafts@.len() as int).contains(e)
                            <==> (search_edge_below(*g, root, target, kind, depth as nat, e) || exists|i: int, jj: int|
                            0 <= i < q && 0 <= jj < g.sources_of(frontier@[i].0 as int).len() && e == #[trigger] route_edge(
                                *g,
                                root,
                                target,
                                kind,
                                frontier@[i].0 as int,
                                depth as nat,
                                jj,
                            )) || exists|jj: int| 0 <= jj < j && e == #[trigger] route_edge(
                                *g,
                                root,
                                target,
                                kind,
                                v.0 as int,
                                depth as nat,
                                jj,
                            ),
                decreases sources@.len() - j,
            {
                let edge = EdgeDraft {
                    source: sources[j].source,
                    target,
                    kind,
                    attenuation: depth,
                    source_wire: Some(v),
                    target_wire: Some(root),
                };
                let ghost before = drafts@;
                proof {
                    assert(edge == route_edge(*g, root, target, kind, v.0 as int, depth as nat, j as int));
                }
                drafts.push(edge);
                proof {
                    let old_new = before.subrange(start.len() as int, before.len() as int);
                    let new_new = drafts@.subrange(start.len() as int, drafts@.len() as int);
                    assert(new_new =~= old_new.push(edge));
                    assert(drafts@.subrange(0, start.len() as int) =~= before.subrange(0, start.len() as int));
                    assert forall|e: EdgeDraft| #[trigger] new_new.contains(e) <==> (old_new.contains(e) || e == edge) by {
                        if new_new.contains(e) && e != edge {
                            let m = choose|m: int| 0 <= m < new_new.len() && new_new[m] == e;
                            assert(old_new[m] == e);
                        }
                        if old_new.contains(e) {
                            let m = choose|m: int| 0 <= m < old_new.len() && old_new[m] == e;
                            assert(new_new[m] == e);
                        }
                        if e == edge {
                            assert(new_new[new_new.len() - 1] == e);
                        }
                    }
                }
                j += 1;
            }
            proof {
                assert forall|e: EdgeDraft|
                    #[trigger] drafts@.subrange(start.len() as int, drafts@.len() as int).contains(e)
                        <==> (search_edge_below(*g, root, target, kind, depth as nat, e) || exists|i: int, jj: int|
                        0 <= i < q + 1 && 0 <= jj < g.sources_of(frontier@[i].0 as int).len() && e == #[trigger] route_edge(
                            *g,
                            root,
                            target,
                            kind,
                            frontier@[i].0 as int,
                            depth as nat,
                            jj,
                        )) by {
                    if exists|i: int, jj: int|
                        0 <= i < q + 1 && 0 <= jj < g.sources_of(frontier@[i].0 as int).len() && e == #[trigger] route_edge(
                            *g,
                            root,
                            target,
                            kind,
                            frontier@[i].0 as int,
                            depth as nat,
                            jj,
                        ) {
                        let (i, jj) = choose|i: int, jj: int|
                            0 <= i < q + 1 && 0 <= jj < g.sources_of(frontier@[i].0 as int).len() && e == #[trigger] route_edge(
                                *g,
                                root,
                                target,
                                kind,
                                frontier@[i].0 as int,
                                depth as nat,
                                jj,
                            );
                        if i == q {
                            assert(exists|j2: int| 0 <= j2 < sources@.len() && e == #[trigger] route_edge(
                                *g,
                                root,
                                target,
                                kind,
                                v.0 as int,
                                depth as nat,
                                j2,
                            ));
                        }
                    }
                }
            }
            q += 1;
        }
        proof {
            assert forall|e: EdgeDraft|
                #[trigger] drafts@.subrange(start.len() as int, drafts@.len() as int).contains(e)
                    <==> search_edge_below(*g, root, target, kind, (depth + 1) as nat, e) by {
                if search_edge_below(*g, root, target, kind, (depth + 1) as nat, e) {
                    let (w, k, j) = choose|w: int, k: nat, j: int|
                        0 <= w < g.count() && k < depth + 1 && at_distance(*g, root.0 as int, w, k) && 0 <= j
                            < g.sources_of(w).len() && e == route_edge(*g, root, target, kind, w, k, j);
                    if k == depth {
                        assert(frontier@.contains(NetworkWireId(w as u32)));
                        let i = choose|i: int| 0 <= i < frontier@.len() && frontier@[i] == NetworkWireId(w as u32);
                        assert(frontier@[i].0 as int == w);
                        assert(e == route_edge(*g, root, target, kind, frontier@[i].0 as int, depth as nat, j));
                    } else {
                        assert(search_edge_below(*g, root, target, kind, depth as nat, e));
                    }
                }
                if drafts@.subrange(start.len() as int, drafts@.len() as int).contains(e) {
                    if !search_edge_below(*g, root, target, kind, depth as nat, e) {
                        let (i, jj) = choose|i: int, jj: int|
                            0 <= i < frontier@.len() && 0 <= jj < g.sources_of(frontier@[i].0 as int).len() && e == #[trigger] route_edge(
                                *g,
                                root,
                                target,
                                kind,
                                frontier@[i].0 as int,
                                depth as nat,
                                jj,
                            );
                        assert(at_distance(*g, r, frontier@[i].0 as int, depth as nat));
                    } else {
                        let (w, k, j) = choose|w: int, k: nat, j: int|
                            0 <= w < g.count() && k < depth && at_distance(*g, root.0 as int, w, k) && 0 <= j
                                < g.sources_of(w).len() && e == route_edge(*g, root, target, kind, w, k, j);
                        assert(at_distance(*g, root.0 as int, w, k));
                    }
                }
            }
        }
        if depth + 1 >= SEARCH_DEPTH {
            break;
        }
        let mut next: Vec<NetworkWireId> = Vec::new();
        let mut q: usize = 0;
        let ghost marks0 = marks@;
        while q < frontier.len()
            invariant
                g.tables_in_bounds(),
                predecessors_below(*g),
                r == root.0,
                n == g.count(),
                0 <= r < n,
                depth + 1 < 15,
                n <= u32::MAX,
                q <= frontier@.len(),
                marks@.len() == n,
                forall|i: int| 0 <= i < frontier@.len() ==> (#[trigger] frontier@[i]).0 < n && at_distance(
                    *g,
                    r,
                    frontier@[i].0 as int,
                    depth as nat,
                ),
                forall|x: int| 0 <= x < n ==> (#[trigger] marks0[x] <==> within(*g, r, x, depth as nat)),
                marks0.len() == n,
                forall|x: int| 0 <= x < n ==> (#[trigger] marks@[x] <==> (marks0[x] || exists|i: int|
                    0 <= i < q && g.predecessors_of(frontier@[i].0 as int).contains(NetworkWireId(x as u32)))),
                forall|m: int| 0 <= m < next@.len() ==> (#[trigger] next@[m]).0 < n && at_distance(*g, r, next@[m].0 as int, (depth + 1) as nat),
                forall|x: int| 0 <= x < n && marks@[x] && !marks0[x] ==> #[trigger] next@.contains(NetworkWireId(x as u32)),
                forall|m: int| 0 <= m < touched@.len() ==> (#[trigger] touched@[m]).0 < n,
                forall|x: int| 0 <= x < n && #[trigger] marks@[x] ==> touched@.contains(NetworkWireId(x as u32)),
            decreases frontier@.len() - q,
        {
            let v = frontier[q];
            let preds = g.predecessors(v);
            let ghost marks1 = marks@;
            let mut j: usize = 0;
            while j < preds.len()
                invariant
                    g.tables_in_bounds(),
                    predecessors_below(*g),
                    r == root.0,
                    n == g.count(),
                    0 <= r < n,
                    n <= u32::MAX,
                    q < frontier@.len(),
                    v == frontier@[q as int],
                    v.0 < n,
                    at_distance(*g, r, v.0 as int, depth as nat),
                    preds@ == g.predecessors_of(v.0 as int),
                    j <= preds@.len(),
                    marks@.len() == n,
                    forall|x: int| 0 <= x < n ==> (#[trigger] marks0[x] <==> within(*g, r, x, depth as nat)),
                    marks0.len() == n,
                    marks1.len() == n,
                    forall|x: int| 0 <= x < n ==> (#[trigger] marks@[x] <==> (marks1[x] || exists|jj: int|
                        0 <= jj < j && preds@[jj] == NetworkWireId(x as u32))),
                    forall|x: int| 0 <= x < n && marks0[x] ==> #[trigger] marks1[x],
                    forall|m: int| 0 <= m < next@.len() ==> (#[trigger] next@[m]).0 < n && at_distance(*g, r, next@[m].0 as int, (depth + 1) as nat),
                    forall|x: int| 0 <= x < n && marks@[x] && !marks0[x] ==> #[trigger] next@.contains(NetworkWireId(x as u32)),
                    forall|m: int| 0 <= m < touched@.len() ==> (#[trigger] touched@[m]).0 < n,
                    forall|x: int| 0 <= x < n && #[trigger] marks@[x] ==> touched@.contains(NetworkWireId(x as u32)),
                decreases preds@.len() - j,
            {
                let p = preds[j];
                proof {
                    assert(p.0 < n);
                }
                if !marks[p.index()] {
                    let ghost mb = marks@;
                    let ghost nb = next@;
                    let ghost tb = touched@;
                    marks.set(p.index(), true);
                    proof {
                        assert(!marks0[p.0 as int]);
                        assert(!within(*g, r, p.0 as int, depth as nat));
                        assert(preds@[j as int] == p);
                        assert(preds@.contains(p));
                        assert(NetworkWireId((p.0 as int) as u32) == p);
                        assert(0 <= v.0 < g.count() && within(*g, r, v.0 as int, depth as nat) && g.predecessors_of(v.0 as int).contains(
                            NetworkWireId((p.0 as int) as u32),
                        ));
                        assert(within(*g, r, p.0 as int, (depth + 1) as nat));
                    }
                    next.push(p);
                    touched.push(p);
                    proof {
                        assert forall|x: int| 0 <= x < n && marks@[x] && !marks0[x] implies #[trigger] next@.contains(NetworkWireId(x as u32)) by {
                            if x == p.0 {
                                assert(next@[next@.len() - 1] == NetworkWireId(x as u32));
                            } else {
                                assert(mb[x]);
                                assert(nb.contains(NetworkWireId(x as u32)));
                                let m = choose|m: int| 0 <= m < nb.len() && nb[m] == NetworkWireId(x as u32);
                                assert(next@[m] == nb[m]);
                            }
                        }
                        assert forall|x: int| 0 <= x < n && #[trigger] marks@[x] implies touched@.contains(NetworkWireId(x as u32)) by {
                            if x == p.0 {
                                assert(touched@[touched@.len() - 1] == NetworkWireId(x as u32));
                            } else {
                                assert(mb[x]);
                                assert(tb.contains(NetworkWireId(x as u32)));
                                let m = choose|m: int| 0 <= m < tb.len() && tb[m] == NetworkWireId(x as u32);
                                assert(touched@[m] == tb[m]);
                            }
                        }
                        assert forall|m: int| 0 <= m < next@.len() implies (#[trigger] next@[m]).0 < n && at_distance(*g, r, next@[m].0 as int, (depth + 1) as nat) by {
                            if m < nb.len() {
                                assert(next@[m] == nb[m]);
                            }
                        }
                        assert forall|m: int| 0 <= m < touched@.len() implies (#[trigger] touched@[m]).0 < n by {
                            if m < tb.len() {
                                assert(touched@[m] == tb[m]);
                            }
                        }
                    }
                }
                proof {
                    assert forall|x: int| 0 <= x < n implies (#[trigger] marks@[x] <==> (marks1[x] || exists|jj: int|
                        0 <= jj < j + 1 && preds@[jj] == NetworkWireId(x as u32))) by {
                        if x == p.0 {
                            assert(preds@[j as int] == NetworkWireId(x as u32));
                        }
                        if exists|jj: int| 0 <= jj < j + 1 && preds@[jj] == NetworkWireId(x as u32) {
                            let jj = choose|jj: int| 0 <= jj < j + 1 && preds@[jj] == NetworkWireId(x as u32);
                            if jj == j {
                                assert(x == p.0);
                            }
                        }
                    }
                }
                j += 1;
            }
            proof {
                assert forall|x: int| 0 <= x < n implies (#[trigger] marks@[x] <==> (marks0[x] || exists|i: int|
                    0 <= i < q + 1 && g.predecessors_of(frontier@[i].0 as int).contains(NetworkWireId(x as u32)))) by {
                    if marks@[x] && !marks0[x] {
                        if marks1[x] {
                            let i = choose|i: int| 0 <= i < q && g.predecessors_of(frontier@[i].0 as int).contains(NetworkWireId(x as u32));
                        } else {
                            let jj = choose|jj: int| 0 <= jj < preds@.len() && preds@[jj] == NetworkWireId(x as u32);
                            assert(g.predecessors_of(frontier@[q as int].0 as int).contains(NetworkWireId(x as u32)));
                        }
                    }
                    if exists|i: int| 0 <= i < q + 1 && g.predecessors_of(frontier@[i].0 as int).contains(NetworkWireId(x as u32)) {
                        let i = choose|i: int| 0 <= i < q + 1 && g.predecessors_of(frontier@[i].0 as int).contains(NetworkWireId(x as u32));
                        if i == q {
                            let jj = choose|jj: int| 0 <= jj < preds@.len() && preds@[jj] == NetworkWireId(x as u32);
                        } else {
                            assert(marks1[x]);
                        }
                    }
                }
            }
            q += 1;
        }
        proof {
            assert forall|x: int| 0 <= x < n implies (#[trigger] marks@[x] <==> within(*g, r, x, (depth + 1) as nat)) by {
                if within(*g, r, x, (depth + 1) as nat) && !within(*g, r, x, depth as nat) {
                    let v = choose|v: int|
                        0 <= v < g.count() && within(*g, r, v, depth as nat) && #[trigger] g.predecessors_of(v).contains(
                            NetworkWireId(x as u32),
                        );
                    if depth > 0 && within(*g, r, v, (depth - 1) as nat) {
                        assert(within(*g, r, x, depth as nat));
                    } else {
                        assert(at_distance(*g, r, v, depth as nat));
                        assert(frontier@.contains(NetworkWireId(v as u32)));
                        let i = choose|i: int| 0 <= i < frontier@.len() && frontier@[i] == NetworkWireId(v as u32);
                        assert(frontier@[i].0 as int == v);
                    }
                }
                if marks@[x] && !marks0[x] {
                    let i = choose|i: int| 0 <= i < frontier@.len() && g.predecessors_of(frontier@[i].0 as int).contains(NetworkWireId(x as u32));
                    assert(within(*g, r, frontier@[i].0 as int, depth as nat));
                }
                if marks0[x] {
                    lemma_within_mono(*g, r, x, depth as nat, (depth + 1) as nat);
                }
            }
            assert forall|x: int| 0 <= x < n && at_distance(*g, r, x, (depth + 1) as nat) implies #[trigger] next@.contains(NetworkWireId(x as u32)) by {
                assert(marks@[x]);
                assert(!marks0[x]);
            }
        }
        if next.len() == 0 {
            proof {
                let d = (depth + 1) as nat;
                assert forall|x: int| 0 <= x < n implies !#[trigger] at_distance(*g, r, x, d) by {
                    if at_distance(*g, r, x, d) {
                        assert(next@.contains(NetworkWireId(x as u32)));
                    }
                }
                assert forall|x: int| #[trigger] within(*g, r, x, d) implies 0 <= x < g.count() by {
                    lemma_within_range(*g, r, x, d);
                }
                assert forall|e: EdgeDraft|
                    #[trigger] drafts@.subrange(start.len() as int, drafts@.len() as int).contains(e)
                        <==> search_edge_below(*g, root, target, kind, 15, e) by {
                    if search_edge_below(*g, root, target, kind, 15, e) {
                        let (w, k, j) = choose|w: int, k: nat, j: int|
                            0 <= w < g.count() && k < 15 && at_distance(*g, root.0 as int, w, k) && 0 <= j
                                < g.sources_of(w).len() && e == route_edge(*g, root, target, kind, w, k, j);
                        if k >= d {
                            lemma_no_farther(*g, r, d, w, k);
                            if k > 0 {
                                lemma_within_mono(*g, r, w, (d - 1) as nat, (k - 1) as nat);
                            }
                            assert(false);
                        }
                        assert(search_edge_below(*g, root, target, kind, d, e));
                    }
                    if search_edge_below(*g, root, target, kind, d, e) {
                        let (w, k, j) = choose|w: int, k: nat, j: int|
                            0 <= w < g.count() && k < d && at_distance(*g, root.0 as int, w, k) && 0 <= j
                                < g.sources_of(w).len() && e == route_edge(*g, root, target, kind, w, k, j);
                        assert(at_distance(*g, root.0 as int, w, k));
                    }
                }
            }
            break;
        }
        frontier = next;
        depth = depth + 1;
    }
    let mut t: usize = 0;
    while t < touched.len()
        invariant
            t <= touched@.len(),
            marks@.len() == n,
            n == g.count(),
            forall|m: int| 0 <= m < touched@.len() ==> (#[trigger] touched@[m]).0 < n,
            forall|x: int| 0 <= x < n && #[trigger] marks@[x] ==> exists|m: int| t <= m < touched@.len() && touched@[m] == NetworkWireId(x as u32),
            n <= u32::MAX,
        decreases touched@.len() - t,
    {
        let w = touched[t];
        marks.set(w.index(), false);
        proof {
            assert forall|x: int| 0 <= x < n && #[trigger] marks@[x] implies exists|m: int| t + 1 <= m < touched@.len() && touched@[m] == NetworkWireId(x as u32) by {
                let m = choose|m: int| t <= m < touched@.len() && touched@[m] == NetworkWireId(x as u32);
                if m == t {
                    assert(x == w.0);
                }
            }
        }
        t += 1;
    }
}

} // verus!
