//! The input search of the network build: for each node, the blocks it
//! reads, and through them the sources and wire routes that reach each of
//! its inputs, with the positions whose change must rebuild it and the
//! wires it reads.

use vstd::prelude::*;

use crate::compiled::dense::DenseWireGraph;
use crate::compiled::draft_order::EdgeDraft;
use crate::compiled::network::{
    is_signal_source, spec_is_signal_source, NetworkInputKind, NetworkNode, NetworkNodeId, NetworkNodeKind,
    NetworkWireId,
};
use crate::compiled::node_build::facing_or_north;
use crate::compiled::search::{predecessors_below, search_edge_below, search_wire_routes};
use crate::compiled::sources::{
    provides_strong_output, provides_weak_output, spec_provides_strong_output, spec_provides_weak_output,
};
use crate::compiled::world::{BlockInfo, WorldView};
use crate::position::{spec_clockwise, spec_counter_clockwise, spec_opposite, spec_relative, spec_update_order, BlockPos, Direction};
use crate::posmap::PositionMap;
use crate::registry::BlockBehavior;
use crate::rules::shape::{direction_name, spec_direction_name};
use crate::text::{bytes, name_is, property, property_of};

verus! {

/// A wire that a node reads, at one of its inputs.
#[derive(Clone, Copy, Debug, PartialEq, Eq, Structural)]
pub struct WireTargetDraft {
    pub wire: NetworkWireId,
    pub target: NetworkNodeId,
    pub kind: NetworkInputKind,
}

/// What the input search has found so far: the edges into the nodes, the
/// positions each node depends on, and the wires each node reads.
pub struct SearchOutput {
    pub edges: Vec<EdgeDraft>,
    pub dependencies: Vec<(BlockPos, NetworkNodeId)>,
    pub wire_targets: Vec<WireTargetDraft>,
}

/// The entries of `after` past those of `before`.
pub open spec fn added<T>(before: Seq<T>, after: Seq<T>) -> Seq<T> {
    after.subrange(before.len() as int, after.len() as int)
}

/// Whether `after` keeps `before` as its beginning.
pub open spec fn extends<T>(before: Seq<T>, after: Seq<T>) -> bool {
    before.len() <= after.len() && after.subrange(0, before.len() as int) == before
}

/// Entries added in two steps are those added by either.
pub proof fn lemma_added_concat<T>(a: Seq<T>, b: Seq<T>, c: Seq<T>, x: T)
    requires
        extends(a, b),
        extends(b, c),
    ensures
        extends(a, c),
        added(a, c).contains(x) <==> (added(a, b).contains(x) || added(b, c).contains(x)),
{
    assert(c.subrange(0, a.len() as int) =~= c.subrange(0, b.len() as int).subrange(0, a.len() as int));
    let ac = added(a, c);
    let ab = added(a, b);
    let bc = added(b, c);
    assert forall|i: int| 0 <= i < ab.len() implies ac[i] == ab[i] by {
        assert(ac[i] == c[a.len() + i]);
        assert(c[a.len() + i] == c.subrange(0, b.len() as int)[a.len() + i]);
    }
    assert forall|i: int| 0 <= i < bc.len() implies ac[(b.len() - a.len()) + i] == bc[i] by {}
    if ac.contains(x) {
        let i = choose|i: int| 0 <= i < ac.len() && ac[i] == x;
        if i < ab.len() {
            assert(ab[i] == x);
        } else {
            assert(bc[i - ab.len()] == x);
        }
    }
    if ab.contains(x) {
        let i = choose|i: int| 0 <= i < ab.len() && ab[i] == x;
        assert(ac[i] == x);
    }
    if bc.contains(x) {
        let i = choose|i: int| 0 <= i < bc.len() && bc[i] == x;
        assert(ac[(b.len() - a.len()) + i] == x);
    }
}

/// Keeping a beginning is transitive.
pub proof fn lemma_extends_trans<T>(a: Seq<T>, b: Seq<T>, c: Seq<T>)
    requires
        extends(a, b),
        extends(b, c),
    ensures
        extends(a, c),
{
    assert(c.subrange(0, a.len() as int) =~= c.subrange(0, b.len() as int).subrange(0, a.len() as int));
}

/// Whether the block at `pos` is of a known state.
pub open spec fn known_at(world: &WorldView, pos: BlockPos) -> bool {
    world.blocks.has(pos) && world.blocks.at(pos).known
}

/// The node at `pos`, if one stands there and puts out a signal.
pub open spec fn source_node_at(
    nodes: Seq<NetworkNode>,
    node_positions: &PositionMap<NetworkNodeId>,
    pos: BlockPos,
) -> Option<NetworkNodeId> {
    if node_positions.has(pos) && spec_is_signal_source(nodes[node_positions.at(pos).0 as int].kind) {
        Some(node_positions.at(pos))
    } else {
        None
    }
}

/// Whether a wire gives power toward its neighbour in `direction`: never
/// down, always up, and sideways unless its side toward that neighbour is
/// `none`.
pub open spec fn wire_toward(info: BlockInfo, direction: Direction) -> bool {
    match direction {
        Direction::Down => false,
        Direction::Up => true,
        _ => property_of(info.properties@, spec_direction_name(spec_opposite(direction))) != Some(bytes("none")),
    }
}

/// The direct edge from node `source` into input `kind` of `target`.
pub open spec fn direct_edge(source: NetworkNodeId, target: NetworkNodeId, kind: NetworkInputKind) -> EdgeDraft {
    EdgeDraft { source, target, kind, attenuation: 0, source_wire: None, target_wire: None }
}

/// Whether `edge` is a route of the wire search from the wire at `pos`.
pub open spec fn wire_route(
    g: DenseWireGraph,
    pos: BlockPos,
    target: NetworkNodeId,
    kind: NetworkInputKind,
    edge: EdgeDraft,
) -> bool {
    g.position_index.has(pos) && search_edge_below(g, g.position_index.at(pos), target, kind, 15, edge)
}

/// Whether the wire at `pos`, if there is one, is read at input `kind` of `target`.
pub open spec fn wire_read(g: DenseWireGraph, pos: BlockPos, target: NetworkNodeId, kind: NetworkInputKind, read: WireTargetDraft) -> bool {
    g.position_index.has(pos) && read == (WireTargetDraft { wire: g.position_index.at(pos), target, kind })
}

/// Whether the graph can be searched: its tables in bounds, its
/// predecessors and positions naming its wires.
pub open spec fn searchable(g: DenseWireGraph) -> bool {
    &&& g.tables_in_bounds()
    &&& predecessors_below(g)
    &&& g.count() <= u32::MAX
    &&& forall|p: BlockPos| #[trigger] g.position_index.has(p) ==> g.position_index.at(p).0 < g.count()
}

/// Whether the scratch marks are all clear, one per wire.
pub open spec fn clear_marks(g: DenseWireGraph, marks: Seq<bool>) -> bool {
    marks.len() == g.count() && forall|i: int| 0 <= i < marks.len() ==> !(#[trigger] marks[i])
}

/// Searches the routes from the wire at `pos` to input `kind` of `target`,
/// and records that `target` reads that wire.
fn search_wire(
    g: &DenseWireGraph,
    pos: BlockPos,
    target: NetworkNodeId,
    kind: NetworkInputKind,
    out: &mut SearchOutput,
    marks: &mut Vec<bool>,
)
    requires
        searchable(*g),
        clear_marks(*g, old(marks)@),
    ensures
        clear_marks(*g, final(marks)@),
        extends(old(out).edges@, final(out).edges@),
        extends(old(out).wire_targets@, final(out).wire_targets@),
        final(out).dependencies@ == old(out).dependencies@,
        forall|e: EdgeDraft| #[trigger] added(old(out).edges@, final(out).edges@).contains(e) <==> wire_route(*g, pos, target, kind, e),
        forall|r: WireTargetDraft|
            #[trigger] added(old(out).wire_targets@, final(out).wire_targets@).contains(r) <==> wire_read(*g, pos, target, kind, r),
{
    let ghost edges0 = out.edges@;
    let ghost reads0 = out.wire_targets@;
    match g.position_index.get(pos) {
        Some(root) => {
            let root = *root;
            out.wire_targets.push(WireTargetDraft { wire: root, target, kind });
            search_wire_routes(g, root, target, kind, &mut out.edges, marks);
            proof {
                assert(added(reads0, out.wire_targets@) =~= seq![WireTargetDraft { wire: root, target, kind }]);
                assert forall|r: WireTargetDraft|
                    #[trigger] added(reads0, out.wire_targets@).contains(r) <==> wire_read(*g, pos, target, kind, r) by {
                    if r == (WireTargetDraft { wire: root, target, kind }) {
                        assert(added(reads0, out.wire_targets@)[0] == r);
                    }
                }
                assert(out.wire_targets@.subrange(0, reads0.len() as int) =~= reads0);
            }
        },
        None => {
            proof {
                assert(added(edges0, out.edges@) =~= Seq::<EdgeDraft>::empty());
                assert(added(reads0, out.wire_targets@) =~= Seq::<WireTargetDraft>::empty());
                assert(out.edges@.subrange(0, edges0.len() as int) =~= edges0);
                assert(out.wire_targets@.subrange(0, reads0.len() as int) =~= reads0);
            }
        },
    }
}

/// The node at `pos`, if one stands there and puts out a signal.
fn signal_source(
    nodes: &Vec<NetworkNode>,
    node_positions: &PositionMap<NetworkNodeId>,
    pos: BlockPos,
) -> (source: Option<NetworkNodeId>)
    requires
        forall|p: BlockPos| #[trigger] node_positions.has(p) ==> node_positions.at(p).0 < nodes@.len(),
    ensures
        source == source_node_at(nodes@, node_positions, pos),
{
    match node_positions.get(pos) {
        Some(id) => {
            if is_signal_source(nodes[id.index()].kind) {
                Some(*id)
            } else {
                None
            }
        },
        None => None,
    }
}

/// Whether a wire gives power toward its neighbour in `direction`.
fn gives_toward(info: &BlockInfo, direction: Direction) -> (result: bool)
    ensures
        result == wire_toward(*info, direction),
{
    match direction {
        Direction::Down => false,
        Direction::Up => true,
        _ => match property(info.properties.as_slice(), direction_name(direction.opposite())) {
            Some(value) => !name_is(value.as_bytes(), "none"),
            None => true,
        },
    }
}

/// Whether `edge` comes in through the side of conducting block `cpos` in
/// update direction `d`: from a wire there that gives power toward the
/// block, by its routes; or from a source node there that powers the block
/// strongly.
pub open spec fn conductor_side_edge(
    world: &WorldView,
    g: DenseWireGraph,
    nodes: Seq<NetworkNode>,
    node_positions: &PositionMap<NetworkNodeId>,
    target: NetworkNodeId,
    cpos: BlockPos,
    kind: NetworkInputKind,
    d: int,
    edge: EdgeDraft,
) -> bool {
    let direction = spec_update_order(d);
    let pos = spec_relative(cpos, direction);
    let info = world.blocks.at(pos);
    &&& known_at(world, pos)
    &&& if info.behavior == BlockBehavior::Wire {
        wire_toward(info, direction) && wire_route(g, pos, target, kind, edge)
    } else {
        &&& source_node_at(nodes, node_positions, pos) is Some
        &&& spec_provides_strong_output(info.behavior, info.properties@, info.facing, direction)
        &&& edge == direct_edge(source_node_at(nodes, node_positions, pos)->0, target, kind)
    }
}

/// Whether the wire beside conducting block `cpos` in update direction `d`
/// gives power toward it and is read.
pub open spec fn conductor_side_read(
    world: &WorldView,
    g: DenseWireGraph,
    target: NetworkNodeId,
    cpos: BlockPos,
    kind: NetworkInputKind,
    d: int,
    read: WireTargetDraft,
) -> bool {
    let direction = spec_update_order(d);
    let pos = spec_relative(cpos, direction);
    let info = world.blocks.at(pos);
    known_at(world, pos) && info.behavior == BlockBehavior::Wire && wire_toward(info, direction) && wire_read(
        g,
        pos,
        target,
        kind,
        read,
    )
}

/// Searches one side of a conducting block.
fn search_conductor_side(
    world: &WorldView,
    g: &DenseWireGraph,
    nodes: &Vec<NetworkNode>,
    node_positions: &PositionMap<NetworkNodeId>,
    target: NetworkNodeId,
    cpos: BlockPos,
    kind: NetworkInputKind,
    d: usize,
    out: &mut SearchOutput,
    marks: &mut Vec<bool>,
)
    requires
        d < 6,
        searchable(*g),
        clear_marks(*g, old(marks)@),
        forall|p: BlockPos| #[trigger] node_positions.has(p) ==> node_positions.at(p).0 < nodes@.len(),
    ensures
        clear_marks(*g, final(marks)@),
        extends(old(out).edges@, final(out).edges@),
        extends(old(out).wire_targets@, final(out).wire_targets@),
        extends(old(out).dependencies@, final(out).dependencies@),
        forall|e: EdgeDraft|
            #[trigger] added(old(out).edges@, final(out).edges@).contains(e) <==> conductor_side_edge(
                world,
                *g,
                nodes@,
                node_positions,
                target,
                cpos,
                kind,
                d as int,
                e,
            ),
        forall|r: WireTargetDraft|
            #[trigger] added(old(out).wire_targets@, final(out).wire_targets@).contains(r) <==> conductor_side_read(
                world,
                *g,
                target,
                cpos,
                kind,
                d as int,
                r,
            ),
        added(old(out).dependencies@, final(out).dependencies@) == seq![
            (spec_relative(cpos, spec_update_order(d as int)), target),
        ],
{
    let order = Direction::update_order();
    let direction = order[d];
    let pos = cpos.relative(direction);
    let ghost edges0 = out.edges@;
    let ghost reads0 = out.wire_targets@;
    let ghost deps0 = out.dependencies@;
    out.dependencies.push((pos, target));
    proof {
        assert(added(deps0, out.dependencies@) =~= seq![(pos, target)]);
        assert(out.dependencies@.subrange(0, deps0.len() as int) =~= deps0);
    }
    let info = match world.blocks.get(pos) {
        Some(info) => {
            if info.known {
                info
            } else {
                proof {
                    assert(added(edges0, out.edges@) =~= Seq::<EdgeDraft>::empty());
                    assert(added(reads0, out.wire_targets@) =~= Seq::<WireTargetDraft>::empty());
                    assert(out.edges@.subrange(0, edges0.len() as int) =~= edges0);
                    assert(out.wire_targets@.subrange(0, reads0.len() as int) =~= reads0);
                }
                return;
            }
        },
        None => {
            proof {
                assert(added(edges0, out.edges@) =~= Seq::<EdgeDraft>::empty());
                assert(added(reads0, out.wire_targets@) =~= Seq::<WireTargetDraft>::empty());
                assert(out.edges@.subrange(0, edges0.len() as int) =~= edges0);
                assert(out.wire_targets@.subrange(0, reads0.len() as int) =~= reads0);
            }
            return;
        },
    };
    let is_wire = match info.behavior {
        BlockBehavior::Wire => true,
        _ => false,
    };
    if is_wire {
        if gives_toward(info, direction) {
            search_wire(g, pos, target, kind, out, marks);
            proof {
                assert(out.dependencies@.subrange(0, deps0.len() as int) =~= deps0);
            }
        } else {
            proof {
                assert(added(edges0, out.edges@) =~= Seq::<EdgeDraft>::empty());
                assert(added(reads0, out.wire_targets@) =~= Seq::<WireTargetDraft>::empty());
                assert(out.edges@.subrange(0, edges0.len() as int) =~= edges0);
                assert(out.wire_targets@.subrange(0, reads0.len() as int) =~= reads0);
            }
        }
        return;
    }
    let source = signal_source(nodes, node_positions, pos);
    let strong = provides_strong_output(info.behavior, info.properties.as_slice(), info.facing, direction);
    match source {
        Some(source) => {
            if strong {
                out.edges.push(EdgeDraft { source, target, kind, attenuation: 0, source_wire: None, target_wire: None });
                proof {
                    assert(added(edges0, out.edges@) =~= seq![direct_edge(source, target, kind)]);
                    assert forall|e: EdgeDraft| #[trigger] added(edges0, out.edges@).contains(e) <==> e == direct_edge(source, target, kind) by {
                        if e == direct_edge(source, target, kind) {
                            assert(added(edges0, out.edges@)[0] == e);
                        }
                    }
                    assert(out.edges@.subrange(0, edges0.len() as int) =~= edges0);
                    assert(added(reads0, out.wire_targets@) =~= Seq::<WireTargetDraft>::empty());
                    assert(out.wire_targets@.subrange(0, reads0.len() as int) =~= reads0);
                }
                return;
            }
        },
        None => {},
    }
    proof {
        assert(added(edges0, out.edges@) =~= Seq::<EdgeDraft>::empty());
        assert(added(reads0, out.wire_targets@) =~= Seq::<WireTargetDraft>::empty());
        assert(out.edges@.subrange(0, edges0.len() as int) =~= edges0);
        assert(out.wire_targets@.subrange(0, reads0.len() as int) =~= reads0);
    }
}


/// A sequence that keeps `before` as its beginning is `before` followed by
/// what was added.
pub proof fn lemma_extends_by<T>(before: Seq<T>, after: Seq<T>)
    requires
        extends(before, after),
    ensures
        after == before + added(before, after),
{
    assert(after =~= after.subrange(0, before.len() as int) + added(before, after));
}

/// The positions that the search of conducting block `cpos` depends on: the
/// block itself, then its six neighbours in update order.
pub open spec fn conductor_dependencies(cpos: BlockPos, target: NetworkNodeId) -> Seq<(BlockPos, NetworkNodeId)> {
    seq![(cpos, target)] + side_dependencies(cpos, target, 6)
}

/// The first `count` neighbours of `cpos` in update order, each paired with `target`.
pub open spec fn side_dependencies(cpos: BlockPos, target: NetworkNodeId, count: int) -> Seq<(BlockPos, NetworkNodeId)> {
    Seq::new(count as nat, |d: int| (spec_relative(cpos, spec_update_order(d)), target))
}

/// Whether `edge` comes in through some side of conducting block `cpos`.
pub open spec fn conductor_edge(
    world: &WorldView,
    g: DenseWireGraph,
    nodes: Seq<NetworkNode>,
    node_positions: &PositionMap<NetworkNodeId>,
    target: NetworkNodeId,
    cpos: BlockPos,
    kind: NetworkInputKind,
    edge: EdgeDraft,
) -> bool {
    exists|d: int| 0 <= d < 6 && #[trigger] conductor_side_edge(world, g, nodes, node_positions, target, cpos, kind, d, edge)
}

/// Whether `read` is a wire read through some side of conducting block `cpos`.
pub open spec fn conductor_read(
    world: &WorldView,
    g: DenseWireGraph,
    target: NetworkNodeId,
    cpos: BlockPos,
    kind: NetworkInputKind,
    read: WireTargetDraft,
) -> bool {
    exists|d: int| 0 <= d < 6 && #[trigger] conductor_side_read(world, g, target, cpos, kind, d, read)
}

/// Searches the six sides of a conducting block for what powers it.
fn search_conductor(
    world: &WorldView,
    g: &DenseWireGraph,
    nodes: &Vec<NetworkNode>,
    node_positions: &PositionMap<NetworkNodeId>,
    target: NetworkNodeId,
    cpos: BlockPos,
    kind: NetworkInputKind,
    out: &mut SearchOutput,
    marks: &mut Vec<bool>,
)
    requires
        searchable(*g),
        clear_marks(*g, old(marks)@),
        forall|p: BlockPos| #[trigger] node_positions.has(p) ==> node_positions.at(p).0 < nodes@.len(),
    ensures
        clear_marks(*g, final(marks)@),
        extends(old(out).edges@, final(out).edges@),
        extends(old(out).wire_targets@, final(out).wire_targets@),
        final(out).dependencies@ == old(out).dependencies@ + conductor_dependencies(cpos, target),
        forall|e: EdgeDraft|
            #[trigger] added(old(out).edges@, final(out).edges@).contains(e) <==> conductor_edge(
                world,
                *g,
                nodes@,
                node_positions,
                target,
                cpos,
                kind,
                e,
            ),
        forall|r: WireTargetDraft|
            #[trigger] added(old(out).wire_targets@, final(out).wire_targets@).contains(r) <==> conductor_read(
                world,
                *g,
                target,
                cpos,
                kind,
                r,
            ),
{
    let ghost edges0 = out.edges@;
    let ghost reads0 = out.wire_targets@;
    let ghost deps0 = out.dependencies@;
    out.dependencies.push((cpos, target));
    proof {
        assert(out.edges@.subrange(0, edges0.len() as int) =~= edges0);
        assert(out.wire_targets@.subrange(0, reads0.len() as int) =~= reads0);
        assert(out.dependencies@ =~= deps0 + seq![(cpos, target)] + side_dependencies(cpos, target, 0));
    }
    let mut d: usize = 0;
    while d < 6
        invariant
            d <= 6,
            searchable(*g),
            clear_marks(*g, marks@),
            forall|p: BlockPos| #[trigger] node_positions.has(p) ==> node_positions.at(p).0 < nodes@.len(),
            extends(edges0, out.edges@),
            extends(reads0, out.wire_targets@),
            out.dependencies@ == deps0 + seq![(cpos, target)] + side_dependencies(cpos, target, d as int),
            forall|e: EdgeDraft|
                #[trigger] added(edges0, out.edges@).contains(e) <==> exists|k: int|
                    0 <= k < d && #[trigger] conductor_side_edge(world, *g, nodes@, node_positions, target, cpos, kind, k, e),
            forall|r: WireTargetDraft|
                #[trigger] added(reads0, out.wire_targets@).contains(r) <==> exists|k: int|
                    0 <= k < d && #[trigger] conductor_side_read(world, *g, target, cpos, kind, k, r),
        decreases 6 - d,
    {
        let ghost edges1 = out.edges@;
        let ghost reads1 = out.wire_targets@;
        let ghost deps1 = out.dependencies@;
        search_conductor_side(world, g, nodes, node_positions, target, cpos, kind, d, out, marks);
        proof {
            assert forall|e: EdgeDraft|
                #[trigger] added(edges0, out.edges@).contains(e) <==> exists|k: int|
                    0 <= k < d + 1 && #[trigger] conductor_side_edge(world, *g, nodes@, node_positions, target, cpos, kind, k, e) by {
                lemma_added_concat(edges0, edges1, out.edges@, e);
            }
            assert forall|r: WireTargetDraft|
                #[trigger] added(reads0, out.wire_targets@).contains(r) <==> exists|k: int|
                    0 <= k < d + 1 && #[trigger] conductor_side_read(world, *g, target, cpos, kind, k, r) by {
                lemma_added_concat(reads0, reads1, out.wire_targets@, r);
            }
            lemma_extends_trans(edges0, edges1, out.edges@);
            lemma_extends_trans(reads0, reads1, out.wire_targets@);
            lemma_extends_by(deps1, out.dependencies@);
            assert(side_dependencies(cpos, target, d + 1) =~= side_dependencies(cpos, target, d as int) + seq![
                (spec_relative(cpos, spec_update_order(d as int)), target),
            ]);
        }
        d += 1;
    }
    proof {
        assert(out.dependencies@ =~= deps0 + conductor_dependencies(cpos, target));
    }
}


/// Whether `edge` reaches input `kind` of `target` from the block at
/// `ipos`, which lies in `direction` of it: from a wire there (read always
/// when `unconditional`, else only where it gives power toward the node), by
/// its routes; from a source node there that gives weak power that way; or
/// through the sides of the block there where it conducts.
pub open spec fn input_edge(
    world: &WorldView,
    g: DenseWireGraph,
    nodes: Seq<NetworkNode>,
    node_positions: &PositionMap<NetworkNodeId>,
    target: NetworkNodeId,
    ipos: BlockPos,
    direction: Direction,
    kind: NetworkInputKind,
    unconditional: bool,
    edge: EdgeDraft,
) -> bool {
    let info = world.blocks.at(ipos);
    &&& known_at(world, ipos)
    &&& if info.behavior == BlockBehavior::Wire {
        (unconditional || wire_toward(info, direction)) && wire_route(g, ipos, target, kind, edge)
    } else {
        ||| {
            &&& source_node_at(nodes, node_positions, ipos) is Some
            &&& spec_provides_weak_output(info.behavior, info.facing, direction)
            &&& edge == direct_edge(source_node_at(nodes, node_positions, ipos)->0, target, kind)
        }
        ||| info.conductor && conductor_edge(world, g, nodes, node_positions, target, ipos, kind, edge)
    }
}

/// Whether `read` is a wire that input `kind` of `target` reads through
/// the block at `ipos`.
pub open spec fn input_read(
    world: &WorldView,
    g: DenseWireGraph,
    target: NetworkNodeId,
    ipos: BlockPos,
    direction: Direction,
    kind: NetworkInputKind,
    unconditional: bool,
    read: WireTargetDraft,
) -> bool {
    let info = world.blocks.at(ipos);
    &&& known_at(world, ipos)
    &&& if info.behavior == BlockBehavior::Wire {
        (unconditional || wire_toward(info, direction)) && wire_read(g, ipos, target, kind, read)
    } else {
        info.conductor && conductor_read(world, g, target, ipos, kind, read)
    }
}

/// The positions whose change the input at `ipos` of `target` depends on:
/// that block, and the sides of it where it is a conducting block.
pub open spec fn input_dependencies(world: &WorldView, target: NetworkNodeId, ipos: BlockPos) -> Seq<(BlockPos, NetworkNodeId)> {
    let info = world.blocks.at(ipos);
    if known_at(world, ipos) && info.behavior != BlockBehavior::Wire && info.conductor {
        seq![(ipos, target)] + conductor_dependencies(ipos, target)
    } else {
        seq![(ipos, target)]
    }
}

/// Searches one input of a node: the block at `ipos`, which lies in
/// `direction` of it.
fn search_input(
    world: &WorldView,
    g: &DenseWireGraph,
    nodes: &Vec<NetworkNode>,
    node_positions: &PositionMap<NetworkNodeId>,
    target: NetworkNodeId,
    ipos: BlockPos,
    direction: Direction,
    kind: NetworkInputKind,
    unconditional: bool,
    out: &mut SearchOutput,
    marks: &mut Vec<bool>,
)
    requires
        searchable(*g),
        clear_marks(*g, old(marks)@),
        forall|p: BlockPos| #[trigger] node_positions.has(p) ==> node_positions.at(p).0 < nodes@.len(),
    ensures
        clear_marks(*g, final(marks)@),
        extends(old(out).edges@, final(out).edges@),
        extends(old(out).wire_targets@, final(out).wire_targets@),
        final(out).dependencies@ == old(out).dependencies@ + input_dependencies(world, target, ipos),
        forall|e: EdgeDraft|
            #[trigger] added(old(out).edges@, final(out).edges@).contains(e) <==> input_edge(
                world,
                *g,
                nodes@,
                node_positions,
                target,
                ipos,
                direction,
                kind,
                unconditional,
                e,
            ),
        forall|r: WireTargetDraft|
            #[trigger] added(old(out).wire_targets@, final(out).wire_targets@).contains(r) <==> input_read(
                world,
                *g,
                target,
                ipos,
                direction,
                kind,
                unconditional,
                r,
            ),
{
    let ghost edges0 = out.edges@;
    let ghost reads0 = out.wire_targets@;
    let ghost deps0 = out.dependencies@;
    out.dependencies.push((ipos, target));
    proof {
        assert(out.edges@.subrange(0, edges0.len() as int) =~= edges0);
        assert(out.wire_targets@.subrange(0, reads0.len() as int) =~= reads0);
        assert(added(edges0, out.edges@) =~= Seq::<EdgeDraft>::empty());
        assert(added(reads0, out.wire_targets@) =~= Seq::<WireTargetDraft>::empty());
    }
    let info = match world.blocks.get(ipos) {
        Some(info) => {
            if info.known {
                info
            } else {
                return;
            }
        },
        None => {
            return;
        },
    };
    let is_wire = match info.behavior {
        BlockBehavior::Wire => true,
        _ => false,
    };
    if is_wire {
        if unconditional || gives_toward(info, direction) {
            search_wire(g, ipos, target, kind, out, marks);
        }
        return;
    }
    let source = signal_source(nodes, node_positions, ipos);
    let weak = provides_weak_output(info.behavior, info.facing, direction);
    let ghost edges1 = out.edges@;
    match source {
        Some(source) => {
            if weak {
                out.edges.push(EdgeDraft { source, target, kind, attenuation: 0, source_wire: None, target_wire: None });
                proof {
                    assert(added(edges0, out.edges@) =~= seq![direct_edge(source, target, kind)]);
                    assert(out.edges@.subrange(0, edges0.len() as int) =~= edges0);
                }
            }
        },
        None => {},
    }
    proof {
        assert forall|e: EdgeDraft| #[trigger] added(edges0, out.edges@).contains(e) <==> {
            &&& source_node_at(nodes@, node_positions, ipos) is Some
            &&& spec_provides_weak_output(info.behavior, info.facing, direction)
            &&& e == direct_edge(source_node_at(nodes@, node_positions, ipos)->0, target, kind)
        } by {
            if source is Some && weak && e == direct_edge(source->0, target, kind) {
                assert(added(edges0, out.edges@)[0] == e);
            }
        }
    }
    if info.conductor {
        let ghost edges2 = out.edges@;
        let ghost reads2 = out.wire_targets@;
        search_conductor(world, g, nodes, node_positions, target, ipos, kind, out, marks);
        proof {
            assert forall|e: EdgeDraft| #[trigger] added(edges0, out.edges@).contains(e) <==> input_edge(
                world,
                *g,
                nodes@,
                node_positions,
                target,
                ipos,
                direction,
                kind,
                unconditional,
                e,
            ) by {
                lemma_added_concat(edges0, edges2, out.edges@, e);
            }
            assert forall|r: WireTargetDraft| #[trigger] added(reads0, out.wire_targets@).contains(r) <==> input_read(
                world,
                *g,
                target,
                ipos,
                direction,
                kind,
                unconditional,
                r,
            ) by {
                lemma_added_concat(reads0, reads2, out.wire_targets@, r);
            }
            lemma_extends_trans(edges0, edges2, out.edges@);
            lemma_extends_trans(reads0, reads2, out.wire_targets@);
            assert(out.dependencies@ =~= deps0 + input_dependencies(world, target, ipos));
        }
    }
}


/// Appending keeps the beginning and adds what was appended.
pub proof fn lemma_append_extends<T>(before: Seq<T>, tail: Seq<T>)
    ensures
        extends(before, before + tail),
        added(before, before + tail) == tail,
{
    assert((before + tail).subrange(0, before.len() as int) =~= before);
    assert(added(before, before + tail) =~= tail);
}

/// Whether `edge` is the side input of repeater `target` from the block at
/// `spos`, in `direction` of it: a repeater or comparator node there that
/// gives weak power that way.
pub open spec fn repeater_side_edge(
    world: &WorldView,
    nodes: Seq<NetworkNode>,
    node_positions: &PositionMap<NetworkNodeId>,
    target: NetworkNodeId,
    spos: BlockPos,
    direction: Direction,
    edge: EdgeDraft,
) -> bool {
    let info = world.blocks.at(spos);
    &&& known_at(world, spos)
    &&& (info.behavior == BlockBehavior::Repeater || info.behavior == BlockBehavior::Comparator)
    &&& spec_provides_weak_output(info.behavior, info.facing, direction)
    &&& source_node_at(nodes, node_positions, spos) is Some
    &&& edge == direct_edge(source_node_at(nodes, node_positions, spos)->0, target, NetworkInputKind::Side)
}

/// Searches a side of a repeater.
fn search_repeater_side(
    world: &WorldView,
    nodes: &Vec<NetworkNode>,
    node_positions: &PositionMap<NetworkNodeId>,
    target: NetworkNodeId,
    spos: BlockPos,
    direction: Direction,
    out: &mut SearchOutput,
)
    requires
        forall|p: BlockPos| #[trigger] node_positions.has(p) ==> node_positions.at(p).0 < nodes@.len(),
    ensures
        extends(old(out).edges@, final(out).edges@),
        final(out).wire_targets@ == old(out).wire_targets@,
        final(out).dependencies@ == old(out).dependencies@ + seq![(spos, target)],
        forall|e: EdgeDraft|
            #[trigger] added(old(out).edges@, final(out).edges@).contains(e) <==> repeater_side_edge(
                world,
                nodes@,
                node_positions,
                target,
                spos,
                direction,
                e,
            ),
{
    let ghost edges0 = out.edges@;
    out.dependencies.push((spos, target));
    proof {
        assert(out.edges@.subrange(0, edges0.len() as int) =~= edges0);
        assert(added(edges0, out.edges@) =~= Seq::<EdgeDraft>::empty());
    }
    let info = match world.blocks.get(spos) {
        Some(info) => {
            if info.known {
                info
            } else {
                return;
            }
        },
        None => {
            return;
        },
    };
    let reads_out = match info.behavior {
        BlockBehavior::Repeater | BlockBehavior::Comparator => true,
        _ => false,
    };
    if !reads_out || !provides_weak_output(info.behavior, info.facing, direction) {
        return;
    }
    match signal_source(nodes, node_positions, spos) {
        Some(source) => {
            out.edges.push(
                EdgeDraft { source, target, kind: NetworkInputKind::Side, attenuation: 0, source_wire: None, target_wire: None },
            );
            proof {
                assert(out.edges@.subrange(0, edges0.len() as int) =~= edges0);
                assert(added(edges0, out.edges@) =~= seq![direct_edge(source, target, NetworkInputKind::Side)]);
                assert forall|e: EdgeDraft| #[trigger] added(edges0, out.edges@).contains(e) <==> repeater_side_edge(
                    world,
                    nodes@,
                    node_positions,
                    target,
                    spos,
                    direction,
                    e,
                ) by {
                    if e == direct_edge(source, target, NetworkInputKind::Side) {
                        assert(added(edges0, out.edges@)[0] == e);
                    }
                }
            }
        },
        None => {},
    }
}

/// Whether `edge` is a side input of comparator `target` from the block at
/// `spos`, in `direction` of it: from a wire there, by its routes, or from a
/// source node there that gives weak power that way.
pub open spec fn comparator_side_edge(
    world: &WorldView,
    g: DenseWireGraph,
    nodes: Seq<NetworkNode>,
    node_positions: &PositionMap<NetworkNodeId>,
    target: NetworkNodeId,
    spos: BlockPos,
    direction: Direction,
    edge: EdgeDraft,
) -> bool {
    let info = world.blocks.at(spos);
    &&& known_at(world, spos)
    &&& if info.behavior == BlockBehavior::Wire {
        wire_route(g, spos, target, NetworkInputKind::Side, edge)
    } else {
        &&& source_node_at(nodes, node_positions, spos) is Some
        &&& spec_provides_weak_output(info.behavior, info.facing, direction)
        &&& edge == direct_edge(source_node_at(nodes, node_positions, spos)->0, target, NetworkInputKind::Side)
    }
}

/// Whether the block at `spos` is a wire that comparator `target` reads at its side.
pub open spec fn comparator_side_read(
    world: &WorldView,
    g: DenseWireGraph,
    target: NetworkNodeId,
    spos: BlockPos,
    read: WireTargetDraft,
) -> bool {
    known_at(world, spos) && world.blocks.at(spos).behavior == BlockBehavior::Wire && wire_read(
        g,
        spos,
        target,
        NetworkInputKind::Side,
        read,
    )
}

/// Searches a side of a comparator.
fn search_comparator_side(
    world: &WorldView,
    g: &DenseWireGraph,
    nodes: &Vec<NetworkNode>,
    node_positions: &PositionMap<NetworkNodeId>,
    target: NetworkNodeId,
    spos: BlockPos,
    direction: Direction,
    out: &mut SearchOutput,
    marks: &mut Vec<bool>,
)
    requires
        searchable(*g),
        clear_marks(*g, old(marks)@),
        forall|p: BlockPos| #[trigger] node_positions.has(p) ==> node_positions.at(p).0 < nodes@.len(),
    ensures
        clear_marks(*g, final(marks)@),
        extends(old(out).edges@, final(out).edges@),
        extends(old(out).wire_targets@, final(out).wire_targets@),
        final(out).dependencies@ == old(out).dependencies@ + seq![(spos, target)],
        forall|e: EdgeDraft|
            #[trigger] added(old(out).edges@, final(out).edges@).contains(e) <==> comparator_side_edge(
                world,
                *g,
                nodes@,
                node_positions,
                target,
                spos,
                direction,
                e,
            ),
        forall|r: WireTargetDraft|
            #[trigger] added(old(out).wire_targets@, final(out).wire_targets@).contains(r) <==> comparator_side_read(
                world,
                *g,
                target,
                spos,
                r,
            ),
{
    let ghost edges0 = out.edges@;
    let ghost reads0 = out.wire_targets@;
    out.dependencies.push((spos, target));
    proof {
        assert(out.edges@.subrange(0, edges0.len() as int) =~= edges0);
        assert(out.wire_targets@.subrange(0, reads0.len() as int) =~= reads0);
        assert(added(edges0, out.edges@) =~= Seq::<EdgeDraft>::empty());
        assert(added(reads0, out.wire_targets@) =~= Seq::<WireTargetDraft>::empty());
    }
    let info = match world.blocks.get(spos) {
        Some(info) => {
            if info.known {
                info
            } else {
                return;
            }
        },
        None => {
            return;
        },
    };
    let is_wire = match info.behavior {
        BlockBehavior::Wire => true,
        _ => false,
    };
    if is_wire {
        search_wire(g, spos, target, NetworkInputKind::Side, out, marks);
        return;
    }
    let source = signal_source(nodes, node_positions, spos);
    if provides_weak_output(info.behavior, info.facing, direction) {
        match source {
            Some(source) => {
                out.edges.push(
                    EdgeDraft { source, target, kind: NetworkInputKind::Side, attenuation: 0, source_wire: None, target_wire: None },
                );
                proof {
                    assert(out.edges@.subrange(0, edges0.len() as int) =~= edges0);
                    assert(added(edges0, out.edges@) =~= seq![direct_edge(source, target, NetworkInputKind::Side)]);
                    assert forall|e: EdgeDraft| #[trigger] added(edges0, out.edges@).contains(e) <==> comparator_side_edge(
                        world,
                        *g,
                        nodes@,
                        node_positions,
                        target,
                        spos,
                        direction,
                        e,
                    ) by {
                        if e == direct_edge(source, target, NetworkInputKind::Side) {
                            assert(added(edges0, out.edges@)[0] == e);
                        }
                    }
                }
            },
            None => {},
        }
    }
}


/// The block state a node reads its facing and shape from: the block at its
/// position, where that block is known.
pub open spec fn node_block<'a>(world: &WorldView<'a>, node: NetworkNode) -> Option<BlockInfo<'a>> {
    if known_at(world, node.pos) {
        Some(world.blocks.at(node.pos))
    } else {
        None
    }
}

/// The direction a node faces, north when its block names none.
pub open spec fn node_facing(world: &WorldView, node: NetworkNode) -> Direction {
    match node_block(world, node) {
        Some(info) => facing_or_north(info.facing),
        None => Direction::North,
    }
}

/// The direction a torch reads from: behind a wall torch, below any other.
pub open spec fn torch_direction(info: BlockInfo) -> Direction {
    match info.behavior {
        BlockBehavior::Torch { wall: true } => spec_opposite(facing_or_north(info.facing)),
        _ => Direction::Down,
    }
}

/// Whether `edge` is found for an input of node `t`: a torch reads the block
/// it stands on or hangs from; a repeater or comparator reads the block it
/// faces, any wire there included, and its two sides; a consumer reads all
/// six neighbours.
#[verifier::opaque]
pub open spec fn target_edge(
    world: &WorldView,
    g: DenseWireGraph,
    nodes: Seq<NetworkNode>,
    node_positions: &PositionMap<NetworkNodeId>,
    t: int,
    edge: EdgeDraft,
) -> bool {
    let node = nodes[t];
    let target = NetworkNodeId(t as u32);
    let pos = node.pos;
    let facing = node_facing(world, node);
    let front = spec_relative(pos, facing);
    let cw = spec_clockwise(facing);
    let ccw = spec_counter_clockwise(facing);
    match node.kind {
        NetworkNodeKind::Torch => match node_block(world, node) {
            Some(info) => {
                let direction = torch_direction(info);
                input_edge(world, g, nodes, node_positions, target, spec_relative(pos, direction), direction, NetworkInputKind::Default, false, edge)
            },
            None => false,
        },
        NetworkNodeKind::Repeater => {
            ||| input_edge(world, g, nodes, node_positions, target, front, facing, NetworkInputKind::Default, true, edge)
            ||| repeater_side_edge(world, nodes, node_positions, target, spec_relative(pos, cw), cw, edge)
            ||| repeater_side_edge(world, nodes, node_positions, target, spec_relative(pos, ccw), ccw, edge)
        },
        NetworkNodeKind::Comparator => {
            ||| input_edge(world, g, nodes, node_positions, target, front, facing, NetworkInputKind::Default, true, edge)
            ||| comparator_side_edge(world, g, nodes, node_positions, target, spec_relative(pos, cw), cw, edge)
            ||| comparator_side_edge(world, g, nodes, node_positions, target, spec_relative(pos, ccw), ccw, edge)
        },
        NetworkNodeKind::Consumer => exists|d: int|
            0 <= d < 6 && #[trigger] input_edge(
                world,
                g,
                nodes,
                node_positions,
                target,
                spec_relative(pos, spec_update_order(d)),
                spec_update_order(d),
                NetworkInputKind::Default,
                false,
                edge,
            ),
        _ => false,
    }
}

/// Whether `read` is a wire that node `t` reads at one of its inputs.
#[verifier::opaque]
pub open spec fn target_read(world: &WorldView, g: DenseWireGraph, nodes: Seq<NetworkNode>, t: int, read: WireTargetDraft) -> bool {
    let node = nodes[t];
    let target = NetworkNodeId(t as u32);
    let pos = node.pos;
    let facing = node_facing(world, node);
    let front = spec_relative(pos, facing);
    let cw = spec_clockwise(facing);
    let ccw = spec_counter_clockwise(facing);
    match node.kind {
        NetworkNodeKind::Torch => match node_block(world, node) {
            Some(info) => {
                let direction = torch_direction(info);
                input_read(world, g, target, spec_relative(pos, direction), direction, NetworkInputKind::Default, false, read)
            },
            None => false,
        },
        NetworkNodeKind::Repeater => input_read(world, g, target, front, facing, NetworkInputKind::Default, true, read),
        NetworkNodeKind::Comparator => {
            ||| input_read(world, g, target, front, facing, NetworkInputKind::Default, true, read)
            ||| comparator_side_read(world, g, target, spec_relative(pos, cw), read)
            ||| comparator_side_read(world, g, target, spec_relative(pos, ccw), read)
        },
        NetworkNodeKind::Consumer => exists|d: int|
            0 <= d < 6 && #[trigger] input_read(
                world,
                g,
                target,
                spec_relative(pos, spec_update_order(d)),
                spec_update_order(d),
                NetworkInputKind::Default,
                false,
                read,
            ),
        _ => false,
    }
}

/// Whether node `t` depends on the block named in `dependency`: each block
/// that one of its inputs reads, the sides of a conducting input block, and
/// the far input of a comparator.
#[verifier::opaque]
pub open spec fn target_dependency(world: &WorldView, nodes: Seq<NetworkNode>, t: int, dependency: (BlockPos, NetworkNodeId)) -> bool {
    let node = nodes[t];
    let target = NetworkNodeId(t as u32);
    let pos = node.pos;
    let facing = node_facing(world, node);
    let front = spec_relative(pos, facing);
    let cw = spec_relative(pos, spec_clockwise(facing));
    let ccw = spec_relative(pos, spec_counter_clockwise(facing));
    match node.kind {
        NetworkNodeKind::Torch => match node_block(world, node) {
            Some(info) => input_dependencies(world, target, spec_relative(pos, torch_direction(info))).contains(dependency),
            None => false,
        },
        NetworkNodeKind::Repeater => {
            ||| input_dependencies(world, target, front).contains(dependency)
            ||| dependency == (cw, target)
            ||| dependency == (ccw, target)
        },
        NetworkNodeKind::Comparator => {
            ||| input_dependencies(world, target, front).contains(dependency)
            ||| dependency == (cw, target)
            ||| dependency == (ccw, target)
            ||| (node.comparator_far_input is Some && dependency == (node.comparator_far_input->0, target))
        },
        NetworkNodeKind::Consumer => exists|d: int|
            0 <= d < 6 && #[trigger] input_dependencies(world, target, spec_relative(pos, spec_update_order(d))).contains(
                dependency,
            ),
        _ => false,
    }
}

/// The direction a torch reads from.
fn torch_reads_from(info: &BlockInfo) -> (direction: Direction)
    ensures
        direction == torch_direction(*info),
{
    match info.behavior {
        BlockBehavior::Torch { wall: true } => match info.facing {
            Some(facing) => facing.opposite(),
            None => Direction::North.opposite(),
        },
        _ => Direction::Down,
    }
}

/// Whether the additions of the steps from `a` to `b` to `c` are those of
/// the whole, for every value at once.
pub proof fn lemma_steps<T>(a: Seq<T>, b: Seq<T>, c: Seq<T>)
    requires
        extends(a, b),
        extends(b, c),
    ensures
        extends(a, c),
        forall|x: T| #[trigger] added(a, c).contains(x) <==> (added(a, b).contains(x) || added(b, c).contains(x)),
{
    lemma_extends_trans(a, b, c);
    assert forall|x: T| #[trigger] added(a, c).contains(x) <==> (added(a, b).contains(x) || added(b, c).contains(x)) by {
        lemma_added_concat(a, b, c, x);
    }
}


/// A sequence of one value holds that value alone.
pub proof fn lemma_single<T>(x: T)
    ensures
        forall|y: T| #[trigger] seq![x].contains(y) <==> y == x,
{
    assert forall|y: T| #[trigger] seq![x].contains(y) <==> y == x by {
        if y == x {
            assert(seq![x][0] == y);
        }
    }
}

/// Searches every input of node `t`.
fn search_target(
    world: &WorldView,
    g: &DenseWireGraph,
    nodes: &Vec<NetworkNode>,
    node_positions: &PositionMap<NetworkNodeId>,
    t: usize,
    out: &mut SearchOutput,
    marks: &mut Vec<bool>,
)
    requires
        t < nodes@.len(),
        nodes@.len() <= u32::MAX,
        searchable(*g),
        clear_marks(*g, old(marks)@),
        forall|p: BlockPos| #[trigger] node_positions.has(p) ==> node_positions.at(p).0 < nodes@.len(),
    ensures
        clear_marks(*g, final(marks)@),
        extends(old(out).edges@, final(out).edges@),
        extends(old(out).wire_targets@, final(out).wire_targets@),
        extends(old(out).dependencies@, final(out).dependencies@),
        forall|e: EdgeDraft|
            #[trigger] added(old(out).edges@, final(out).edges@).contains(e) <==> target_edge(
                world,
                *g,
                nodes@,
                node_positions,
                t as int,
                e,
            ),
        forall|r: WireTargetDraft|
            #[trigger] added(old(out).wire_targets@, final(out).wire_targets@).contains(r) <==> target_read(
                world,
                *g,
                nodes@,
                t as int,
                r,
            ),
        forall|x: (BlockPos, NetworkNodeId)|
            #[trigger] added(old(out).dependencies@, final(out).dependencies@).contains(x) <==> target_dependency(
                world,
                nodes@,
                t as int,
                x,
            ),
{
    let ghost edges0 = out.edges@;
    let ghost reads0 = out.wire_targets@;
    let ghost deps0 = out.dependencies@;
    proof {
        reveal(target_edge);
        reveal(target_read);
        reveal(target_dependency);
        assert(out.edges@.subrange(0, edges0.len() as int) =~= edges0);
        assert(out.wire_targets@.subrange(0, reads0.len() as int) =~= reads0);
        assert(out.dependencies@.subrange(0, deps0.len() as int) =~= deps0);
        assert(added(edges0, out.edges@) =~= Seq::<EdgeDraft>::empty());
        assert(added(reads0, out.wire_targets@) =~= Seq::<WireTargetDraft>::empty());
        assert(added(deps0, out.dependencies@) =~= Seq::<(BlockPos, NetworkNodeId)>::empty());
    }
    let target = NetworkNodeId(t as u32);
    let node = nodes[t];
    let pos = node.pos;
    let block: Option<&BlockInfo> = match world.blocks.get(pos) {
        Some(info) => {
            if info.known {
                Some(info)
            } else {
                None
            }
        },
        None => None,
    };
    let facing = match block {
        Some(info) => match info.facing {
            Some(facing) => facing,
            None => Direction::North,
        },
        None => Direction::North,
    };
    proof {
        assert(facing == node_facing(world, node));
    }
    match node.kind {
        NetworkNodeKind::Torch => {
            match block {
                Some(info) => {
                    let direction = torch_reads_from(info);
                    search_input(world, g, nodes, node_positions, target, pos.relative(direction), direction, NetworkInputKind::Default, false, out, marks);
                    proof {
                        assert(node_block(world, node) == Some(*info));
                        lemma_append_extends(deps0, input_dependencies(world, target, spec_relative(pos, direction)));
                    }
                },
                None => {},
            }
        },
        NetworkNodeKind::Repeater | NetworkNodeKind::Comparator => {
            let front = pos.relative(facing);
            search_input(world, g, nodes, node_positions, target, front, facing, NetworkInputKind::Default, true, out, marks);
            let ghost edges1 = out.edges@;
            let ghost reads1 = out.wire_targets@;
            let ghost deps1 = out.dependencies@;
            let cw = facing.clockwise();
            let ccw = facing.counter_clockwise();
            let is_repeater = match node.kind {
                NetworkNodeKind::Repeater => true,
                _ => false,
            };
            if is_repeater {
                search_repeater_side(world, nodes, node_positions, target, pos.relative(cw), cw, out);
            } else {
                search_comparator_side(world, g, nodes, node_positions, target, pos.relative(cw), cw, out, marks);
            }
            let ghost edges2 = out.edges@;
            let ghost reads2 = out.wire_targets@;
            let ghost deps2 = out.dependencies@;
            if is_repeater {
                search_repeater_side(world, nodes, node_positions, target, pos.relative(ccw), ccw, out);
            } else {
                search_comparator_side(world, g, nodes, node_positions, target, pos.relative(ccw), ccw, out, marks);
            }
            let ghost edges3 = out.edges@;
            let ghost reads3 = out.wire_targets@;
            let ghost deps3 = out.dependencies@;
            if !is_repeater {
                match node.comparator_far_input {
                    Some(far) => {
                        out.dependencies.push((far, target));
                    },
                    None => {},
                }
            }
            proof {
                lemma_append_extends(deps0, input_dependencies(world, target, front));
                lemma_append_extends(deps1, seq![(spec_relative(pos, cw), target)]);
                lemma_append_extends(deps2, seq![(spec_relative(pos, ccw), target)]);
                lemma_single((spec_relative(pos, cw), target));
                lemma_single((spec_relative(pos, ccw), target));
                lemma_steps(edges0, edges1, edges2);
                lemma_steps(edges0, edges2, edges3);
                if is_repeater {
                    assert(reads2 == reads1);
                    assert(reads3 == reads1);
                } else {
                    lemma_steps(reads0, reads1, reads2);
                    lemma_steps(reads0, reads2, reads3);
                }
                lemma_steps(deps0, deps1, deps2);
                lemma_steps(deps0, deps2, deps3);
                if !is_repeater && node.comparator_far_input is Some {
                    let far = node.comparator_far_input->0;
                    lemma_append_extends(deps3, seq![(far, target)]);
                    lemma_single((far, target));
                    assert(out.dependencies@ =~= deps3 + seq![(far, target)]);
                    lemma_steps(deps0, deps3, out.dependencies@);
                } else {
                    assert(out.dependencies@ == deps3);
                }
            }
        },
        NetworkNodeKind::Consumer => {
            let order = Direction::update_order();
            let mut d: usize = 0;
            while d < 6
                invariant
                    d <= 6,
                    t < nodes@.len(),
                    nodes@.len() <= u32::MAX,
                    node == nodes@[t as int],
                    target == NetworkNodeId(t as u32),
                    pos == node.pos,
                    forall|i: int| 0 <= i < 6 ==> #[trigger] order@[i] == spec_update_order(i),
                    searchable(*g),
                    clear_marks(*g, marks@),
                    forall|p: BlockPos| #[trigger] node_positions.has(p) ==> node_positions.at(p).0 < nodes@.len(),
                    extends(edges0, out.edges@),
                    extends(reads0, out.wire_targets@),
                    extends(deps0, out.dependencies@),
                    forall|e: EdgeDraft|
                        #[trigger] added(edges0, out.edges@).contains(e) <==> exists|k: int|
                            0 <= k < d && #[trigger] input_edge(
                                world,
                                *g,
                                nodes@,
                                node_positions,
                                target,
                                spec_relative(pos, spec_update_order(k)),
                                spec_update_order(k),
                                NetworkInputKind::Default,
                                false,
                                e,
                            ),
                    forall|r: WireTargetDraft|
                        #[trigger] added(reads0, out.wire_targets@).contains(r) <==> exists|k: int|
                            0 <= k < d && #[trigger] input_read(
                                world,
                                *g,
                                target,
                                spec_relative(pos, spec_update_order(k)),
                                spec_update_order(k),
                                NetworkInputKind::Default,
                                false,
                                r,
                            ),
                    forall|x: (BlockPos, NetworkNodeId)|
                        #[trigger] added(deps0, out.dependencies@).contains(x) <==> exists|k: int|
                            0 <= k < d && #[trigger] input_dependencies(world, target, spec_relative(pos, spec_update_order(k))).contains(x),
                decreases 6 - d,
            {
                let direction = order[d];
                let ghost edges1 = out.edges@;
                let ghost reads1 = out.wire_targets@;
                let ghost deps1 = out.dependencies@;
                search_input(world, g, nodes, node_positions, target, pos.relative(direction), direction, NetworkInputKind::Default, false, out, marks);
                proof {
                    lemma_append_extends(deps1, input_dependencies(world, target, spec_relative(pos, direction)));
                    lemma_steps(edges0, edges1, out.edges@);
                    lemma_steps(reads0, reads1, out.wire_targets@);
                    lemma_steps(deps0, deps1, out.dependencies@);
                    assert forall|e: EdgeDraft|
                        #[trigger] added(edges0, out.edges@).contains(e) <==> exists|k: int|
                            0 <= k < d + 1 && #[trigger] input_edge(
                                world,
                                *g,
                                nodes@,
                                node_positions,
                                target,
                                spec_relative(pos, spec_update_order(k)),
                                spec_update_order(k),
                                NetworkInputKind::Default,
                                false,
                                e,
                            ) by {
                        assert(added(edges0, out.edges@).contains(e) <==> (added(edges0, edges1).contains(e) || added(edges1, out.edges@).contains(e)));
                    }
                    assert forall|r: WireTargetDraft|
                        #[trigger] added(reads0, out.wire_targets@).contains(r) <==> exists|k: int|
                            0 <= k < d + 1 && #[trigger] input_read(
                                world,
                                *g,
                                target,
                                spec_relative(pos, spec_update_order(k)),
                                spec_update_order(k),
                                NetworkInputKind::Default,
                                false,
                                r,
                            ) by {
                        assert(added(reads0, out.wire_targets@).contains(r) <==> (added(reads0, reads1).contains(r) || added(reads1, out.wire_targets@).contains(r)));
                    }
                    assert forall|x: (BlockPos, NetworkNodeId)|
                        #[trigger] added(deps0, out.dependencies@).contains(x) <==> exists|k: int|
                            0 <= k < d + 1 && #[trigger] input_dependencies(world, target, spec_relative(pos, spec_update_order(k))).contains(x) by {
                        assert(added(deps0, out.dependencies@).contains(x) <==> (added(deps0, deps1).contains(x) || added(deps1, out.dependencies@).contains(x)));
                    }
                }
                d += 1;
            }
        },
        _ => {},
    }
}


/// Searches the inputs of every node, in id order: the edges into the nodes,
/// the positions each depends on and the wires each reads, each list in the
/// order of the search.
pub fn search_inputs(
    world: &WorldView,
    g: &DenseWireGraph,
    nodes: &Vec<NetworkNode>,
    node_positions: &PositionMap<NetworkNodeId>,
) -> (out: SearchOutput)
    requires
        nodes@.len() <= u32::MAX,
        searchable(*g),
        forall|p: BlockPos| #[trigger] node_positions.has(p) ==> node_positions.at(p).0 < nodes@.len(),
    ensures
        forall|e: EdgeDraft|
            #[trigger] out.edges@.contains(e) <==> exists|t: int|
                0 <= t < nodes@.len() && #[trigger] target_edge(world, *g, nodes@, node_positions, t, e),
        forall|r: WireTargetDraft|
            #[trigger] out.wire_targets@.contains(r) <==> exists|t: int|
                0 <= t < nodes@.len() && #[trigger] target_read(world, *g, nodes@, t, r),
        forall|x: (BlockPos, NetworkNodeId)|
            #[trigger] out.dependencies@.contains(x) <==> exists|t: int|
                0 <= t < nodes@.len() && #[trigger] target_dependency(world, nodes@, t, x),
{
    let mut marks: Vec<bool> = Vec::new();
    while marks.len() < g.len()
        invariant
            marks@.len() <= g.count(),
            forall|i: int| 0 <= i < marks@.len() ==> !(#[trigger] marks@[i]),
        decreases g.count() - marks@.len(),
    {
        marks.push(false);
    }
    let mut out = SearchOutput { edges: Vec::new(), dependencies: Vec::new(), wire_targets: Vec::new() };
    let ghost edges0 = out.edges@;
    let ghost reads0 = out.wire_targets@;
    let ghost deps0 = out.dependencies@;
    proof {
        assert(out.edges@.subrange(0, 0) =~= edges0);
        assert(out.wire_targets@.subrange(0, 0) =~= reads0);
        assert(out.dependencies@.subrange(0, 0) =~= deps0);
    }
    let mut t: usize = 0;
    while t < nodes.len()
        invariant
            t <= nodes@.len(),
            nodes@.len() <= u32::MAX,
            searchable(*g),
            clear_marks(*g, marks@),
            forall|p: BlockPos| #[trigger] node_positions.has(p) ==> node_positions.at(p).0 < nodes@.len(),
            edges0.len() == 0,
            reads0.len() == 0,
            deps0.len() == 0,
            extends(edges0, out.edges@),
            extends(reads0, out.wire_targets@),
            extends(deps0, out.dependencies@),
            forall|e: EdgeDraft|
                #[trigger] added(edges0, out.edges@).contains(e) <==> exists|k: int|
                    0 <= k < t && #[trigger] target_edge(world, *g, nodes@, node_positions, k, e),
            forall|r: WireTargetDraft|
                #[trigger] added(reads0, out.wire_targets@).contains(r) <==> exists|k: int|
                    0 <= k < t && #[trigger] target_read(world, *g, nodes@, k, r),
            forall|x: (BlockPos, NetworkNodeId)|
                #[trigger] added(deps0, out.dependencies@).contains(x) <==> exists|k: int|
                    0 <= k < t && #[trigger] target_dependency(world, nodes@, k, x),
        decreases nodes@.len() - t,
    {
        let ghost edges1 = out.edges@;
        let ghost reads1 = out.wire_targets@;
        let ghost deps1 = out.dependencies@;
        search_target(world, g, nodes, node_positions, t, &mut out, &mut marks);
        proof {
            lemma_steps(edges0, edges1, out.edges@);
            lemma_steps(reads0, reads1, out.wire_targets@);
            lemma_steps(deps0, deps1, out.dependencies@);
            assert forall|e: EdgeDraft|
                #[trigger] added(edges0, out.edges@).contains(e) <==> exists|k: int|
                    0 <= k < t + 1 && #[trigger] target_edge(world, *g, nodes@, node_positions, k, e) by {
                assert(added(edges0, out.edges@).contains(e) <==> (added(edges0, edges1).contains(e) || added(edges1, out.edges@).contains(e)));
            }
            assert forall|r: WireTargetDraft|
                #[trigger] added(reads0, out.wire_targets@).contains(r) <==> exists|k: int|
                    0 <= k < t + 1 && #[trigger] target_read(world, *g, nodes@, k, r) by {
                assert(added(reads0, out.wire_targets@).contains(r) <==> (added(reads0, reads1).contains(r) || added(reads1, out.wire_targets@).contains(r)));
            }
            assert forall|x: (BlockPos, NetworkNodeId)|
                #[trigger] added(deps0, out.dependencies@).contains(x) <==> exists|k: int|
                    0 <= k < t + 1 && #[trigger] target_dependency(world, nodes@, k, x) by {
                assert(added(deps0, out.dependencies@).contains(x) <==> (added(deps0, deps1).contains(x) || added(deps1, out.dependencies@).contains(x)));
            }
        }
        t += 1;
    }
    proof {
        assert(added(edges0, out.edges@) =~= out.edges@);
        assert(added(reads0, out.wire_targets@) =~= out.wire_targets@);
        assert(added(deps0, out.dependencies@) =~= out.dependencies@);
    }
    out
}

} // verus!
