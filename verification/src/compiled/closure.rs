//! The wires that a topology change reaches along the world's wire
//! connections, as a local rebuild collects them: starting from the wires
//! near the changed blocks, over at most fifteen steps between connected
//! wires.

use vstd::prelude::*;

use crate::compiled::frontend::NodeKind;
use crate::compiled::graph::CompiledGraph;
use crate::compiled::passes::{insert_position, positions_ascending};
use crate::position::{spec_horizontal, spec_offset, spec_relative, BlockPos, Direction};
use crate::posmap::PositionMap;

verus! {

/// What the wire search reads of one block: whether its state is known,
/// whether it is a redstone wire and whether it conducts redstone.
#[derive(Clone, Copy, Debug, PartialEq, Eq, Structural)]
pub struct BlockFlags {
    pub known: bool,
    pub wire: bool,
    pub conductor: bool,
}

/// The flags of air: known, no wire, no conductor.
pub open spec fn air_flags() -> BlockFlags {
    BlockFlags { known: true, wire: false, conductor: false }
}

/// The blocks of a world as the wire search reads them; a position without
/// an entry holds air.
pub struct WireView {
    pub blocks: PositionMap<BlockFlags>,
}

impl WireView {
    /// The flags of the block at `pos`.
    pub open spec fn flags(&self, pos: BlockPos) -> BlockFlags {
        if self.blocks.has(pos) {
            self.blocks.at(pos)
        } else {
            air_flags()
        }
    }

    /// Whether the block at `pos` is a wire of a known state.
    pub open spec fn wire_at(&self, pos: BlockPos) -> bool {
        self.flags(pos).known && self.flags(pos).wire
    }

    /// Whether the block above `pos` lets a wire climb: it is of an unknown
    /// state or conducts nothing.
    pub open spec fn open_above(&self, pos: BlockPos) -> bool {
        let above = spec_relative(pos, Direction::Up);
        !(self.flags(above).known && self.flags(above).conductor)
    }

    /// Whether the wire at `pos` connects to `n` through its horizontal side
    /// `h`: the side block, of a known state, is a wire at `n`; or it
    /// conducts, the block above `pos` lets the wire climb, and `n` is the
    /// wire on top of it; or it conducts nothing and `n` is the wire below it.
    pub open spec fn connects_through(&self, pos: BlockPos, h: int, n: BlockPos) -> bool {
        let side = spec_relative(pos, spec_horizontal(h));
        let flags = self.flags(side);
        &&& flags.known
        &&& {
            ||| flags.wire && n == side
            ||| flags.conductor && self.open_above(pos) && n == spec_relative(side, Direction::Up) && self.wire_at(n)
            ||| !flags.conductor && n == spec_relative(side, Direction::Down) && self.wire_at(n)
        }
    }

    /// Whether the wire at `pos` connects to `n` through one of its sides.
    pub open spec fn connects(&self, pos: BlockPos, n: BlockPos) -> bool {
        exists|h: int| 0 <= h < 4 && #[trigger] self.connects_through(pos, h, n)
    }

    /// The flags of the block at `pos`.
    pub fn block(&self, pos: BlockPos) -> (flags: BlockFlags)
        ensures
            flags == self.flags(pos),
    {
        match self.blocks.get(pos) {
            Some(flags) => *flags,
            None => BlockFlags { known: true, wire: false, conductor: false },
        }
    }

    /// The wires that the wire at `pos` connects to, ascending, once each.
    pub fn wire_neighbors(&self, pos: BlockPos) -> (neighbors: Vec<BlockPos>)
        ensures
            positions_ascending(neighbors@),
            forall|n: BlockPos| #[trigger] neighbors@.contains(n) <==> self.connects(pos, n),
            neighbors@.len() <= 8,
    {
        let above = self.block(pos.relative(Direction::Up));
        let above_open = !(above.known && above.conductor);
        let sides = Direction::horizontal();
        let mut neighbors: Vec<BlockPos> = Vec::new();
        let mut h: usize = 0;
        while h < 4
            invariant
                h <= 4,
                above_open == self.open_above(pos),
                forall|i: int| 0 <= i < 4 ==> #[trigger] sides@[i] == spec_horizontal(i),
                positions_ascending(neighbors@),
                forall|n: BlockPos| #[trigger] neighbors@.contains(n) <==> exists|i: int|
                    0 <= i < h && #[trigger] self.connects_through(pos, i, n),
                neighbors@.len() <= 2 * h,
            decreases 4 - h,
        {
            let side = pos.relative(sides[h]);
            let flags = self.block(side);
            let ghost before = neighbors@;
            if flags.known {
                if flags.wire {
                    insert_position(&mut neighbors, side);
                }
                let ghost with_side = neighbors@;
                if flags.conductor && above_open {
                    let up = side.relative(Direction::Up);
                    let top = self.block(up);
                    if top.known && top.wire {
                        insert_position(&mut neighbors, up);
                    }
                } else if !flags.conductor {
                    let down = side.relative(Direction::Down);
                    let bottom = self.block(down);
                    if bottom.known && bottom.wire {
                        insert_position(&mut neighbors, down);
                    }
                }
                proof {
                    assert forall|n: BlockPos| #[trigger] neighbors@.contains(n) <==> (before.contains(n)
                        || self.connects_through(pos, h as int, n)) by {
                        assert(with_side.contains(n) <==> (before.contains(n) || (flags.wire && n == side)));
                    }
                }
            }
            proof {
                assert forall|n: BlockPos| #[trigger] neighbors@.contains(n) <==> exists|i: int|
                    0 <= i < h + 1 && #[trigger] self.connects_through(pos, i, n) by {
                    if neighbors@.contains(n) {
                        if before.contains(n) {
                            let i = choose|i: int| 0 <= i < h && #[trigger] self.connects_through(pos, i, n);
                        } else {
                            assert(self.connects_through(pos, h as int, n));
                        }
                    }
                    if exists|i: int| 0 <= i < h + 1 && #[trigger] self.connects_through(pos, i, n) {
                        let i = choose|i: int| 0 <= i < h + 1 && #[trigger] self.connects_through(pos, i, n);
                        if i < h {
                            assert(before.contains(n));
                        }
                    }
                }
            }
            h += 1;
        }
        neighbors
    }
}

/// How many steps between connected wires the search takes at most.
pub const CLOSURE_STEPS: u8 = 15;

/// Whether `s` lies in the cube of side five centred on `t`.
pub open spec fn near(t: BlockPos, s: BlockPos) -> bool {
    exists|dx: i32, dy: i32, dz: i32|
        #![trigger spec_offset(t, dx, dy, dz)]
        -2 <= dx <= 2 && -2 <= dy <= 2 && -2 <= dz <= 2 && s == spec_offset(t, dx, dy, dz)
}

/// The `j`-th position of the cube of side five centred on `t`.
spec fn cube_pos(t: BlockPos, j: int) -> BlockPos {
    spec_offset(t, (j / 25 - 2) as i32, ((j / 5) % 5 - 2) as i32, (j % 5 - 2) as i32)
}

proof fn lemma_cube(t: BlockPos, s: BlockPos)
    ensures
        near(t, s) <==> exists|j: int| 0 <= j < 125 && s == #[trigger] cube_pos(t, j),
{
    if near(t, s) {
        let (dx, dy, dz) = choose|dx: i32, dy: i32, dz: i32|
            -2 <= dx <= 2 && -2 <= dy <= 2 && -2 <= dz <= 2 && s == spec_offset(t, dx, dy, dz);
        let j = (dx + 2) * 25 + (dy + 2) * 5 + (dz + 2);
        assert(j / 25 == dx + 2);
        assert((j / 5) % 5 == dy + 2);
        assert(j % 5 == dz + 2);
        assert(s == cube_pos(t, j));
    }
    if exists|j: int| 0 <= j < 125 && s == #[trigger] cube_pos(t, j) {
        let j = choose|j: int| 0 <= j < 125 && s == #[trigger] cube_pos(t, j);
        let (dx, dy, dz) = ((j / 25 - 2) as i32, ((j / 5) % 5 - 2) as i32, (j % 5 - 2) as i32);
        assert(s == spec_offset(t, dx, dy, dz));
    }
}

/// Whether the compiled graph holds a wire at `s`.
pub open spec fn graph_wire(graph: &CompiledGraph, s: BlockPos) -> bool {
    match graph.id_at(s) {
        Some(id) => graph.live(id) && graph.node_of(id).signature.node_kind == NodeKind::Wire,
        None => false,
    }
}

/// Whether the search starts at `s`: a wire, in the graph or in the world,
/// in the cube of side five around a changed block.
pub open spec fn search_start(graph: &CompiledGraph, view: &WireView, dirty: Seq<BlockPos>, s: BlockPos) -> bool {
    &&& exists|t: BlockPos| #[trigger] dirty.contains(t) && near(t, s)
    &&& graph_wire(graph, s) || view.wire_at(s)
}

/// Whether the search reaches `p` within `d` steps between connected wires.
pub open spec fn reached(graph: &CompiledGraph, view: &WireView, dirty: Seq<BlockPos>, p: BlockPos, d: nat) -> bool
    decreases d,
{
    if d == 0 {
        search_start(graph, view, dirty, p)
    } else {
        reached(graph, view, dirty, p, (d - 1) as nat) || exists|q: BlockPos|
            #![trigger view.connects(q, p)]
            reached(graph, view, dirty, q, (d - 1) as nat) && view.connects(q, p)
    }
}

/// Marks `p` as reached unless it is, adding it to `found` and `frontier`.
fn visit(visited: &mut PositionMap<u8>, found: &mut Vec<BlockPos>, frontier: &mut Vec<BlockPos>, p: BlockPos, level: u8)
    ensures
        forall|q: BlockPos| #[trigger] final(visited).has(q) <==> (old(visited).has(q) || q == p),
        forall|q: BlockPos| #[trigger] final(found)@.contains(q) <==> (old(found)@.contains(q) || (q == p
            && !old(visited).has(p))),
        forall|q: BlockPos| #[trigger] final(frontier)@.contains(q) <==> (old(frontier)@.contains(q) || (q == p
            && !old(visited).has(p))),
        final(found)@ == (if old(visited).has(p) {
            old(found)@
        } else {
            old(found)@.push(p)
        }),
{
    if visited.get(p).is_none() {
        visited.insert(p, level);
        found.push(p);
        frontier.push(p);
        proof {
            assert forall|q: BlockPos| #[trigger] visited.has(q) <==> (old(visited).has(q) || q == p) by {
                crate::posmap::lemma_pack_injective(q, p);
            }
            assert forall|q: BlockPos| #[trigger] found@.contains(q) <==> (old(found)@.contains(q) || q == p) by {
                vstd::seq_lib::lemma_seq_contains_after_push(old(found)@, p, q);
            }
            assert forall|q: BlockPos| #[trigger] frontier@.contains(q) <==> (old(frontier)@.contains(q) || q == p) by {
                vstd::seq_lib::lemma_seq_contains_after_push(old(frontier)@, p, q);
            }
        }
    }
}

/// Whether the search starts at `s` from the `t`-th changed block's cube
/// positions before `j`.
spec fn started_upto(graph: &CompiledGraph, view: &WireView, t: BlockPos, s: BlockPos, j: int) -> bool {
    (exists|i: int| 0 <= i < j && s == #[trigger] cube_pos(t, i)) && (graph_wire(graph, s) || view.wire_at(s))
}

impl WireView {
    /// Whether the block at `pos` is a wire of a known state.
    pub fn is_wire(&self, pos: BlockPos) -> (result: bool)
        ensures
            result == self.wire_at(pos),
    {
        let flags = self.block(pos);
        flags.known && flags.wire
    }
}

/// The wires that a topology change at `dirty` reaches: the wires, in the
/// graph or in the world, in the cube of side five around a changed block,
/// and every wire connected to one of them by at most fifteen steps between
/// connected wires. Each appears once.
pub fn wire_closure(graph: &CompiledGraph, view: &WireView, dirty: &[BlockPos]) -> (found: Vec<BlockPos>)
    ensures
        found@.no_duplicates(),
        forall|p: BlockPos| #[trigger] found@.contains(p) <==> reached(graph, view, dirty@, p, CLOSURE_STEPS as nat),
{
    let mut visited: PositionMap<u8> = PositionMap::new();
    let mut found: Vec<BlockPos> = Vec::new();
    let mut frontier: Vec<BlockPos> = Vec::new();
    let mut k: usize = 0;
    while k < dirty.len()
        invariant
            k <= dirty@.len(),
            found@.no_duplicates(),
            forall|q: BlockPos| #[trigger] found@.contains(q) <==> visited.has(q),
            forall|q: BlockPos| #[trigger] frontier@.contains(q) <==> visited.has(q),
            forall|q: BlockPos| #[trigger] visited.has(q) <==> search_start(graph, view, dirty@.take(k as int), q),
        decreases dirty@.len() - k,
    {
        let t = dirty[k];
        let ghost done = dirty@.take(k as int);
        let mut j: usize = 0;
        while j < 125
            invariant
                j <= 125,
                found@.no_duplicates(),
                forall|q: BlockPos| #[trigger] found@.contains(q) <==> visited.has(q),
                forall|q: BlockPos| #[trigger] frontier@.contains(q) <==> visited.has(q),
                forall|q: BlockPos| #[trigger] visited.has(q) <==> (search_start(graph, view, done, q) || started_upto(
                    graph,
                    view,
                    t,
                    q,
                    j as int,
                )),
            decreases 125 - j,
        {
            let dx = (j / 25) as i32 - 2;
            let dy = ((j / 5) % 5) as i32 - 2;
            let dz = (j % 5) as i32 - 2;
            let candidate = t.offset(dx, dy, dz);
            proof {
                assert(candidate == cube_pos(t, j as int));
            }
            if graph.is_wire(candidate) || view.is_wire(candidate) {
                let ghost before = found@;
                visit(&mut visited, &mut found, &mut frontier, candidate, 0);
                proof {
                    assert(found@.no_duplicates()) by {
                        if found@.len() > before.len() {
                            assert(!before.contains(candidate));
                            assert forall|a: int, b: int| 0 <= a < b < found@.len() implies found@[a] != found@[b] by {
                                if b == before.len() {
                                    assert(before[a] != candidate);
                                }
                            }
                        }
                    }
                }
            }
            proof {
                assert forall|q: BlockPos| #[trigger] visited.has(q) <==> (search_start(graph, view, done, q)
                    || started_upto(graph, view, t, q, j + 1)) by {
                    if started_upto(graph, view, t, q, j + 1) && !started_upto(graph, view, t, q, j as int) {
                        let i = choose|i: int| 0 <= i < j + 1 && q == #[trigger] cube_pos(t, i);
                        assert(i == j);
                    }
                    if started_upto(graph, view, t, q, j as int) {
                        let i = choose|i: int| 0 <= i < j && q == #[trigger] cube_pos(t, i);
                        assert(0 <= i < j + 1 && q == cube_pos(t, i));
                    }
                    if q == candidate && (graph_wire(graph, q) || view.wire_at(q)) {
                        assert(q == cube_pos(t, j as int));
                    }
                }
            }
            j += 1;
        }
        proof {
            let next = dirty@.take(k + 1);
            assert(next =~= done.push(t));
            assert forall|q: BlockPos| #[trigger] visited.has(q) <==> search_start(graph, view, next, q) by {
                lemma_cube(t, q);
                vstd::seq_lib::lemma_seq_contains_after_push(done, t, t);
                if search_start(graph, view, next, q) {
                    let u = choose|u: BlockPos| #[trigger] next.contains(u) && near(u, q);
                    vstd::seq_lib::lemma_seq_contains_after_push(done, t, u);
                    if u == t {
                        let i = choose|i: int| 0 <= i < 125 && q == #[trigger] cube_pos(t, i);
                        assert(started_upto(graph, view, t, q, 125));
                    } else {
                        assert(done.contains(u));
                    }
                }
                if search_start(graph, view, done, q) {
                    let u = choose|u: BlockPos| #[trigger] done.contains(u) && near(u, q);
                    vstd::seq_lib::lemma_seq_contains_after_push(done, t, u);
                    assert(next.contains(u));
                }
                if started_upto(graph, view, t, q, 125) {
                    assert(near(t, q));
                    assert(next.contains(t));
                }
            }
        }
        k += 1;
    }
    proof {
        assert(dirty@.take(dirty@.len() as int) =~= dirty@);
        assert forall|q: BlockPos| #[trigger] frontier@.contains(q) <==> reached(graph, view, dirty@, q, 0) by {}
    }
    let mut level: u8 = 0;
    while level < CLOSURE_STEPS
        invariant
            level <= CLOSURE_STEPS,
            found@.no_duplicates(),
            forall|q: BlockPos| #[trigger] found@.contains(q) <==> visited.has(q),
            forall|q: BlockPos| #[trigger] visited.has(q) <==> reached(graph, view, dirty@, q, level as nat),
            forall|q: BlockPos| #[trigger] frontier@.contains(q) <==> (reached(graph, view, dirty@, q, level as nat)
                && (level == 0 || !reached(graph, view, dirty@, q, (level - 1) as nat))),
        decreases CLOSURE_STEPS - level,
    {
        let ghost before = visited;
        let mut next: Vec<BlockPos> = Vec::new();
        let mut i: usize = 0;
        while i < frontier.len()
            invariant
                level < CLOSURE_STEPS,
                i <= frontier@.len(),
                found@.no_duplicates(),
                forall|q: BlockPos| #[trigger] found@.contains(q) <==> visited.has(q),
                forall|q: BlockPos| #[trigger] visited.has(q) <==> (before.has(q) || exists|m: int|
                    0 <= m < i && #[trigger] view.connects(frontier@[m], q)),
                forall|q: BlockPos| #[trigger] next@.contains(q) <==> (!before.has(q) && exists|m: int|
                    0 <= m < i && #[trigger] view.connects(frontier@[m], q)),
            decreases frontier@.len() - i,
        {
            let neighbors = view.wire_neighbors(frontier[i]);
            let ghost stage = visited;
            let ghost stage_next = next@;
            let mut n: usize = 0;
            while n < neighbors.len()
                invariant
                    level < CLOSURE_STEPS,
                    i < frontier@.len(),
                    n <= neighbors@.len(),
                    found@.no_duplicates(),
                    forall|q: BlockPos| #[trigger] neighbors@.contains(q) <==> view.connects(frontier@[i as int], q),
                    forall|q: BlockPos| #[trigger] found@.contains(q) <==> visited.has(q),
                    forall|q: BlockPos| #[trigger] visited.has(q) <==> (stage.has(q) || neighbors@.take(n as int).contains(q)),
                    forall|q: BlockPos| #[trigger] next@.contains(q) <==> (stage_next.contains(q) || (!stage.has(q)
                        && neighbors@.take(n as int).contains(q))),
                decreases neighbors@.len() - n,
            {
                let ghost found_before = found@;
                let ghost taken = neighbors@.take(n as int);
                visit(&mut visited, &mut found, &mut next, neighbors[n], level + 1);
                proof {
                    let q0 = neighbors@[n as int];
                    assert(neighbors@.take(n + 1) =~= taken.push(q0));
                    assert(found@.no_duplicates()) by {
                        if found@.len() > found_before.len() {
                            assert(!found_before.contains(q0));
                            assert forall|a: int, b: int| 0 <= a < b < found@.len() implies found@[a] != found@[b] by {
                                if b == found_before.len() {
                                    assert(found_before[a] != q0);
                                }
                            }
                        }
                    }
                    assert forall|q: BlockPos| #[trigger] visited.has(q) <==> (stage.has(q) || neighbors@.take(n + 1).contains(q)) by {
                        vstd::seq_lib::lemma_seq_contains_after_push(taken, q0, q);
                    }
                    assert forall|q: BlockPos| #[trigger] next@.contains(q) <==> (stage_next.contains(q) || (!stage.has(q)
                        && neighbors@.take(n + 1).contains(q))) by {
                        vstd::seq_lib::lemma_seq_contains_after_push(taken, q0, q);
                    }
                }
                n += 1;
            }
            proof {
                assert(neighbors@.take(neighbors@.len() as int) =~= neighbors@);
                assert forall|q: BlockPos| #[trigger] visited.has(q) <==> (before.has(q) || exists|m: int|
                    0 <= m < i + 1 && #[trigger] view.connects(frontier@[m], q)) by {
                    if exists|m: int| 0 <= m < i + 1 && #[trigger] view.connects(frontier@[m], q) {
                        let m = choose|m: int| 0 <= m < i + 1 && #[trigger] view.connects(frontier@[m], q);
                        if m == i {
                            assert(neighbors@.contains(q));
                        }
                    }
                }
                assert forall|q: BlockPos| #[trigger] next@.contains(q) <==> (!before.has(q) && exists|m: int|
                    0 <= m < i + 1 && #[trigger] view.connects(frontier@[m], q)) by {
                    if exists|m: int| 0 <= m < i + 1 && #[trigger] view.connects(frontier@[m], q) {
                        let m = choose|m: int| 0 <= m < i + 1 && #[trigger] view.connects(frontier@[m], q);
                        if m == i {
                            assert(neighbors@.contains(q));
                        }
                    }
                    if stage.has(q) && !before.has(q) {
                        let m = choose|m: int| 0 <= m < i && #[trigger] view.connects(frontier@[m], q);
                    }
                }
            }
            i += 1;
        }
        proof {
            let d = level as nat;
            assert forall|q: BlockPos| #[trigger] visited.has(q) <==> reached(graph, view, dirty@, q, d + 1) by {
                assert(((d + 1) - 1) as nat == d);
                if reached(graph, view, dirty@, q, d + 1) && !reached(graph, view, dirty@, q, d) {
                    let r = choose|r: BlockPos| #![trigger view.connects(r, q)] reached(graph, view, dirty@, r, d) && view.connects(r, q);
                    if frontier@.contains(r) {
                        let m = choose|m: int| 0 <= m < frontier@.len() && frontier@[m] == r;
                        assert(view.connects(frontier@[m], q));
                    } else {
                        assert(d > 0 && reached(graph, view, dirty@, r, (d - 1) as nat));
                        assert(reached(graph, view, dirty@, q, d));
                    }
                }
                if visited.has(q) && !before.has(q) {
                    let m = choose|m: int| 0 <= m < frontier@.len() && #[trigger] view.connects(frontier@[m], q);
                    assert(frontier@.contains(frontier@[m]));
                    assert(reached(graph, view, dirty@, frontier@[m], d));
                }
            }
            assert forall|q: BlockPos| #[trigger] next@.contains(q) <==> (reached(graph, view, dirty@, q, d + 1)
                && !reached(graph, view, dirty@, q, d)) by {
                assert(((d + 1) - 1) as nat == d);
                if reached(graph, view, dirty@, q, d + 1) && !reached(graph, view, dirty@, q, d) {
                    let r = choose|r: BlockPos| #![trigger view.connects(r, q)] reached(graph, view, dirty@, r, d) && view.connects(r, q);
                    if frontier@.contains(r) {
                        let m = choose|m: int| 0 <= m < frontier@.len() && frontier@[m] == r;
                        assert(view.connects(frontier@[m], q));
                    } else {
                        assert(d > 0 && reached(graph, view, dirty@, r, (d - 1) as nat));
                        assert(reached(graph, view, dirty@, q, d));
                    }
                }
                if next@.contains(q) {
                    let m = choose|m: int| 0 <= m < frontier@.len() && #[trigger] view.connects(frontier@[m], q);
                    assert(frontier@.contains(frontier@[m]));
                    assert(reached(graph, view, dirty@, frontier@[m], d));
                }
            }
        }
        frontier = next;
        level += 1;
    }
    found
}

} // verus!
