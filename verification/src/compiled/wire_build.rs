//! Building the dense wire graph from a world snapshot: the wires in
//! ascending position order, the links between them, the nodes that power
//! them, the observers that watch them and the blocks a change of each wire
//! updates, in Java's order.

use vstd::prelude::*;

use crate::compiled::closure::{BlockFlags, WireView};
use crate::compiled::csr::{csr_slice, csr_valid};
use crate::compiled::links::{index_pairs, indexes_positions, lemma_pairs_runs, packs_below};
use crate::compiled::dense::{unique_wires_below, DenseWireGraph};
use crate::compiled::links::compile_links;
use crate::compiled::world::lemma_view_connects;
use crate::compiled::static_network::{ids_in_order, pack_pair};
use crate::compiled::network::{
    flagged, unflagged, NetworkNode, NetworkNodeId, NetworkWireId, NetworkWireSource, OrderedBoundaryTarget,
    OrderedWireTarget,
};
use crate::update_order::{by_bucket, default_wire_update_positions, update_candidates};
use crate::compiled::network::{is_signal_source, spec_is_signal_source};
use crate::compiled::sources::{provides_strong_output, provides_weak_output, spec_provides_strong_output, spec_provides_weak_output};
use crate::compiled::passes::positions_ascending;
use crate::compiled::world::WorldView;
use crate::position::{pos_lt, spec_opposite, spec_relative, spec_update_order, BlockPos, BlockStateId, Direction};
use crate::posmap::PositionMap;
use crate::registry::BlockBehavior;

verus! {

/// The wires of the world, in ascending position order.
pub fn wire_positions(world: &WorldView) -> (positions: Vec<BlockPos>)
    requires
        world.valid(),
    ensures
        positions_ascending(positions@),
        forall|p: BlockPos| #[trigger] positions@.contains(p) <==> world.wire_at(p),
{
    let mut positions: Vec<BlockPos> = Vec::new();
    let mut k: usize = 0;
    while k < world.order.len()
        invariant
            world.valid(),
            k <= world.order@.len(),
            positions_ascending(positions@),
            forall|p: BlockPos| #[trigger] positions@.contains(p) <==> exists|j: int|
                0 <= j < k && #[trigger] world.order@[j] == p && world.wire_at(p),
            positions@.len() > 0 ==> exists|j: int| 0 <= j < k && world.order@[j] == positions@.last(),
        decreases world.order@.len() - k,
    {
        let pos = world.order[k];
        let ghost before = positions@;
        let is_wire = match world.blocks.get(pos) {
            Some(info) => info.known && match info.behavior {
                BlockBehavior::Wire => true,
                _ => false,
            },
            None => false,
        };
        if is_wire {
            positions.push(pos);
            proof {
                assert forall|i: int, j: int| 0 <= i < j < positions@.len() implies pos_lt(positions@[i], positions@[j]) by {
                    if j == positions@.len() - 1 {
                        assert(positions@[i] == before[i]);
                        let m = choose|m: int| 0 <= m < k && world.order@[m] == before.last();
                        assert(pos_lt(world.order@[m], world.order@[k as int]));
                        if i < before.len() - 1 {
                            assert(pos_lt(before[i], before.last()));
                        }
                    } else {
                        assert(positions@[i] == before[i]);
                        assert(positions@[j] == before[j]);
                    }
                }
                assert forall|p: BlockPos| #[trigger] positions@.contains(p) <==> exists|j: int|
                    0 <= j < k + 1 && #[trigger] world.order@[j] == p && world.wire_at(p) by {
                    if positions@.contains(p) && p != pos {
                        let i = choose|i: int| 0 <= i < positions@.len() && positions@[i] == p;
                        assert(before[i] == p);
                        assert(before.contains(p));
                    }
                    if p == pos {
                        assert(positions@[positions@.len() - 1] == p);
                    }
                    if exists|j: int| 0 <= j < k + 1 && #[trigger] world.order@[j] == p && world.wire_at(p) {
                        let j = choose|j: int| 0 <= j < k + 1 && #[trigger] world.order@[j] == p && world.wire_at(p);
                        if j < k {
                            assert(exists|j2: int| 0 <= j2 < k && #[trigger] world.order@[j2] == p && world.wire_at(p));
                            assert(before.contains(p));
                            let i = choose|i: int| 0 <= i < before.len() && before[i] == p;
                            assert(positions@[i] == p);
                        } else {
                            assert(positions@[positions@.len() - 1] == p);
                        }
                    }
                }
            }
        } else {
            proof {
                assert forall|p: BlockPos| #[trigger] positions@.contains(p) <==> exists|j: int|
                    0 <= j < k + 1 && #[trigger] world.order@[j] == p && world.wire_at(p) by {
                    if exists|j: int| 0 <= j < k + 1 && #[trigger] world.order@[j] == p && world.wire_at(p) {
                        let j = choose|j: int| 0 <= j < k + 1 && #[trigger] world.order@[j] == p && world.wire_at(p);
                        assert(j != k);
                    }
                }
            }
        }
        k += 1;
    }
    proof {
        assert forall|p: BlockPos| #[trigger] positions@.contains(p) <==> world.wire_at(p) by {
            if world.wire_at(p) {
                assert(world.order@.contains(p));
                let j = choose|j: int| 0 <= j < world.order@.len() && world.order@[j] == p;
            }
        }
    }
    positions
}

/// What the wire search reads of the world.
pub fn wire_view(world: &WorldView) -> (view: WireView)
    requires
        world.valid(),
    ensures
        forall|p: BlockPos| #[trigger] view.flags(p) == world.flags_at(p),
{
    let mut blocks: PositionMap<BlockFlags> = PositionMap::new();
    let mut k: usize = 0;
    while k < world.order.len()
        invariant
            world.valid(),
            k <= world.order@.len(),
            forall|p: BlockPos| #[trigger] blocks.has(p) <==> exists|j: int| 0 <= j < k && #[trigger] world.order@[j] == p,
            forall|p: BlockPos| #[trigger] blocks.has(p) ==> blocks.at(p) == world.flags_at(p),
        decreases world.order@.len() - k,
    {
        let pos = world.order[k];
        proof {
            assert(world.order@.contains(pos));
        }
        let flags = match world.blocks.get(pos) {
            Some(info) => BlockFlags {
                known: info.known,
                wire: info.known && match info.behavior {
                    BlockBehavior::Wire => true,
                    _ => false,
                },
                conductor: info.known && info.conductor,
            },
            None => BlockFlags { known: true, wire: false, conductor: false },
        };
        let ghost before = blocks;
        blocks.insert(pos, flags);
        proof {
            assert forall|p: BlockPos| #[trigger] blocks.has(p) <==> (before.has(p) || p == pos) by {
                crate::posmap::lemma_pack_injective(p, pos);
            }
            assert forall|p: BlockPos| #[trigger] blocks.has(p) <==> exists|j: int| 0 <= j < k + 1 && #[trigger] world.order@[j] == p by {
                if p == pos {
                    assert(world.order@[k as int] == p);
                }
                if exists|j: int| 0 <= j < k + 1 && #[trigger] world.order@[j] == p {
                    let j = choose|j: int| 0 <= j < k + 1 && #[trigger] world.order@[j] == p;
                    if j < k {
                        assert(before.has(p));
                    }
                }
            }
            assert forall|p: BlockPos| #[trigger] blocks.has(p) implies blocks.at(p) == world.flags_at(p) by {
                crate::posmap::lemma_pack_injective(p, pos);
                if p != pos {
                    assert(before.has(p));
                }
            }
        }
        k += 1;
    }
    let view = WireView { blocks };
    proof {
        assert forall|p: BlockPos| #[trigger] view.flags(p) == world.flags_at(p) by {
            if !blocks.has(p) {
                assert(!world.order@.contains(p));
            }
        }
    }
    view
}

/// The order in which the faces around a wire are checked for observers:
/// west, east, north, south, down, up.
pub open spec fn observer_direction(i: int) -> Direction {
    if i == 0 {
        Direction::West
    } else if i == 1 {
        Direction::East
    } else if i == 2 {
        Direction::North
    } else if i == 3 {
        Direction::South
    } else if i == 4 {
        Direction::Down
    } else {
        Direction::Up
    }
}

/// Whether the block at `pos`, the neighbour of a wire in `direction`, is an
/// observer of a known state facing back toward the wire.
pub open spec fn watches(world: &WorldView, pos: BlockPos, direction: Direction) -> bool {
    &&& world.blocks.has(pos)
    &&& world.blocks.at(pos).known
    &&& world.blocks.at(pos).behavior == BlockBehavior::Observer
    &&& world.blocks.at(pos).facing == Some(spec_opposite(direction))
}

/// The observers that watch the wire at `wire`, among its first `upto`
/// faces in observer order.
pub open spec fn observers_upto(world: &WorldView, wire: BlockPos, upto: int) -> Seq<BlockPos>
    decreases upto,
{
    if upto <= 0 {
        Seq::empty()
    } else {
        let earlier = observers_upto(world, wire, upto - 1);
        let pos = spec_relative(wire, observer_direction(upto - 1));
        if watches(world, pos, observer_direction(upto - 1)) {
            earlier.push(pos)
        } else {
            earlier
        }
    }
}

/// The observers that watch the wire at `wire`, in observer order.
pub open spec fn wire_observers(world: &WorldView, wire: BlockPos) -> Seq<BlockPos> {
    observers_upto(world, wire, 6)
}

/// The observers of the first `upto` wires, wire after wire.
pub open spec fn observers_of_wires(world: &WorldView, positions: Seq<BlockPos>, upto: int) -> Seq<BlockPos>
    decreases upto,
{
    if upto <= 0 {
        Seq::empty()
    } else {
        observers_of_wires(world, positions, upto - 1) + wire_observers(world, positions[upto - 1])
    }
}

proof fn lemma_observers_upto_len(world: &WorldView, wire: BlockPos, upto: int)
    ensures
        observers_upto(world, wire, upto).len() <= if upto > 0 {
            upto
        } else {
            0
        },
    decreases upto,
{
    if upto > 0 {
        lemma_observers_upto_len(world, wire, upto - 1);
    }
}

proof fn lemma_observers_prefix(world: &WorldView, positions: Seq<BlockPos>, i: int, m: int)
    requires
        0 <= i <= m,
    ensures
        observers_of_wires(world, positions, m).subrange(0, observers_of_wires(world, positions, i).len() as int)
            == observers_of_wires(world, positions, i),
        observers_of_wires(world, positions, i).len() <= observers_of_wires(world, positions, m).len(),
    decreases m - i,
{
    if i < m {
        lemma_observers_prefix(world, positions, i, m - 1);
        let a = observers_of_wires(world, positions, i);
        let b = observers_of_wires(world, positions, m - 1);
        let c = observers_of_wires(world, positions, m);
        assert(c == b + wire_observers(world, positions[m - 1]));
        assert(c.subrange(0, a.len() as int) =~= b.subrange(0, a.len() as int));
    } else {
        let a = observers_of_wires(world, positions, i);
        assert(a.subrange(0, a.len() as int) =~= a);
    }
}

/// The observers of each wire at `positions`, indexed by wire: the
/// observers facing each wire, checked west, east, north, south, down, up.
pub fn compile_wire_observers(world: &WorldView, positions: &Vec<BlockPos>) -> (result: (Vec<u32>, Vec<BlockPos>))
    requires
        positions@.len() <= 0x1FFF_FFFF,
    ensures
        result.1@ == observers_of_wires(world, positions@, positions@.len() as int),
        csr_valid(result.0@, positions@.len() as int, result.1@.len() as int),
        forall|i: int|
            0 <= i <= positions@.len() ==> #[trigger] result.0@[i] == observers_of_wires(world, positions@, i).len(),
        forall|i: int|
            0 <= i < positions@.len() ==> #[trigger] csr_slice(result.0@, result.1@, i) == wire_observers(
                world,
                positions@[i],
            ),
{
    let order = [Direction::West, Direction::East, Direction::North, Direction::South, Direction::Down, Direction::Up];
    let mut offsets: Vec<u32> = Vec::new();
    let mut observers: Vec<BlockPos> = Vec::new();
    offsets.push(0);
    let mut k: usize = 0;
    while k < positions.len()
        invariant
            positions@.len() <= 0x1FFF_FFFF,
            k <= positions@.len(),
            forall|i: int| 0 <= i < 6 ==> #[trigger] order@[i] == observer_direction(i),
            observers@ == observers_of_wires(world, positions@, k as int),
            observers@.len() <= 6 * k,
            offsets@.len() == k + 1,
            forall|i: int| 0 <= i <= k ==> #[trigger] offsets@[i] == observers_of_wires(world, positions@, i).len(),
        decreases positions@.len() - k,
    {
        let wire = positions[k];
        let ghost start = observers@;
        let mut d: usize = 0;
        while d < 6
            invariant
                d <= 6,
                forall|i: int| 0 <= i < 6 ==> #[trigger] order@[i] == observer_direction(i),
                observers@ == start + observers_upto(world, wire, d as int),
            decreases 6 - d,
        {
            let direction = order[d];
            let pos = wire.relative(direction);
            let seen = match world.blocks.get(pos) {
                Some(info) => info.known && match info.behavior {
                    BlockBehavior::Observer => true,
                    _ => false,
                } && match info.facing {
                    Some(facing) => facing == direction.opposite(),
                    None => false,
                },
                None => false,
            };
            if seen {
                observers.push(pos);
            }
            proof {
                assert(observers@ =~= start + observers_upto(world, wire, d + 1));
            }
            d += 1;
        }
        proof {
            lemma_observers_upto_len(world, wire, 6);
            assert(observers_of_wires(world, positions@, k + 1) == observers_of_wires(world, positions@, k as int)
                + wire_observers(world, positions@[k as int]));
        }
        offsets.push(observers.len() as u32);
        proof {
            assert forall|i: int| 0 <= i <= k + 1 implies #[trigger] offsets@[i] == observers_of_wires(world, positions@, i).len() by {
                if i <= k {
                    assert(offsets@[i] == offsets@.drop_last()[i]);
                }
            }
        }
        k += 1;
    }
    proof {
        let n = positions@.len() as int;
        assert forall|i: int, j: int| 0 <= i <= j <= n implies offsets@[i] <= offsets@[j] by {
            lemma_observers_prefix(world, positions@, i, j);
        }
        assert forall|i: int| 0 <= i < n implies #[trigger] csr_slice(offsets@, observers@, i) == wire_observers(
            world,
            positions@[i],
        ) by {
            lemma_observers_prefix(world, positions@, i + 1, n);
            let a = observers_of_wires(world, positions@, i);
            let b = observers_of_wires(world, positions@, i + 1);
            assert(b == a + wire_observers(world, positions@[i]));
            assert(observers@.subrange(a.len() as int, b.len() as int) =~= b.subrange(a.len() as int, b.len() as int));
            assert(b.subrange(a.len() as int, b.len() as int) =~= wire_observers(world, positions@[i]));
        }
    }
    (offsets, observers)
}

/// The fast-input node standing at `pos`, if a node stands there and reads
/// its inputs on the fast path.
pub open spec fn fast_node_at(
    nodes: Seq<NetworkNode>,
    node_positions: &PositionMap<NetworkNodeId>,
    pos: BlockPos,
) -> Option<NetworkNodeId> {
    if node_positions.has(pos) && nodes[node_positions.at(pos).0 as int].fast_input {
        Some(node_positions.at(pos))
    } else {
        None
    }
}

/// The ordered table and boundary blocks after one more entry: the block in
/// `direction` of `candidate` is a wire, listed by its id; or a block of a
/// known state that reacts to neighbour updates, listed as the next
/// boundary; or nothing is listed.
pub open spec fn ordered_entry(
    world: &WorldView,
    index: &PositionMap<NetworkWireId>,
    nodes: Seq<NetworkNode>,
    node_positions: &PositionMap<NetworkNodeId>,
    candidate: BlockPos,
    direction: Direction,
    table: (Seq<OrderedWireTarget>, Seq<OrderedBoundaryTarget>),
) -> (Seq<OrderedWireTarget>, Seq<OrderedBoundaryTarget>) {
    let pos = spec_relative(candidate, direction);
    if index.has(pos) {
        (table.0.push(OrderedWireTarget(index.at(pos).0)), table.1)
    } else if world.blocks.has(pos) && world.blocks.at(pos).known && world.blocks.at(pos).updates_neighbors {
        (
            table.0.push(OrderedWireTarget(0x8000_0000u32 | (table.1.len() as u32))),
            table.1.push(
                OrderedBoundaryTarget {
                    pos,
                    source_pos: candidate,
                    fast_input_node: fast_node_at(nodes, node_positions, pos),
                },
            ),
        )
    } else {
        table
    }
}

/// The ordered table after the first `upto` entries of the wire at `wire`:
/// for each block its change updates, in Java's order, the six neighbours
/// of that block in update order.
pub open spec fn wire_entries(
    world: &WorldView,
    index: &PositionMap<NetworkWireId>,
    nodes: Seq<NetworkNode>,
    node_positions: &PositionMap<NetworkNodeId>,
    wire: BlockPos,
    upto: int,
    table: (Seq<OrderedWireTarget>, Seq<OrderedBoundaryTarget>),
) -> (Seq<OrderedWireTarget>, Seq<OrderedBoundaryTarget>)
    decreases upto,
{
    if upto <= 0 {
        table
    } else {
        let earlier = wire_entries(world, index, nodes, node_positions, wire, upto - 1, table);
        let candidate = by_bucket(update_candidates(wire), 16)[(upto - 1) / 6];
        ordered_entry(world, index, nodes, node_positions, candidate, spec_update_order((upto - 1) % 6), earlier)
    }
}

/// The ordered table and boundary blocks of the first `upto` wires.
pub open spec fn ordered_of_wires(
    world: &WorldView,
    index: &PositionMap<NetworkWireId>,
    nodes: Seq<NetworkNode>,
    node_positions: &PositionMap<NetworkNodeId>,
    positions: Seq<BlockPos>,
    upto: int,
) -> (Seq<OrderedWireTarget>, Seq<OrderedBoundaryTarget>)
    decreases upto,
{
    if upto <= 0 {
        (Seq::empty(), Seq::empty())
    } else {
        wire_entries(
            world,
            index,
            nodes,
            node_positions,
            positions[upto - 1],
            42,
            ordered_of_wires(world, index, nodes, node_positions, positions, upto - 1),
        )
    }
}

/// Whether every entry of `targets` names a wire below `n` or one of
/// `boundaries`.
pub open spec fn entries_valid(targets: Seq<OrderedWireTarget>, n: int, boundaries: int) -> bool {
    forall|k: int|
        0 <= k < targets.len() ==> if flagged((#[trigger] targets[k]).0) {
            unflagged(targets[k].0) < boundaries
        } else {
            targets[k].0 < n
        }
}

proof fn lemma_wire_entries_grow(
    world: &WorldView,
    index: &PositionMap<NetworkWireId>,
    nodes: Seq<NetworkNode>,
    node_positions: &PositionMap<NetworkNodeId>,
    wire: BlockPos,
    upto: int,
    table: (Seq<OrderedWireTarget>, Seq<OrderedBoundaryTarget>),
)
    requires
        0 <= upto,
    ensures
        ({
            let r = wire_entries(world, index, nodes, node_positions, wire, upto, table);
            &&& table.0.len() <= r.0.len() <= table.0.len() + upto
            &&& table.1.len() <= r.1.len() <= table.1.len() + upto
            &&& r.0.subrange(0, table.0.len() as int) == table.0
        }),
    decreases upto,
{
    if upto > 0 {
        lemma_wire_entries_grow(world, index, nodes, node_positions, wire, upto - 1, table);
        let e = wire_entries(world, index, nodes, node_positions, wire, upto - 1, table);
        let r = wire_entries(world, index, nodes, node_positions, wire, upto, table);
        if r.0.len() > e.0.len() {
            assert(r.0.subrange(0, table.0.len() as int) =~= e.0.subrange(0, table.0.len() as int));
        }
    }
}

proof fn lemma_ordered_prefix(
    world: &WorldView,
    index: &PositionMap<NetworkWireId>,
    nodes: Seq<NetworkNode>,
    node_positions: &PositionMap<NetworkNodeId>,
    positions: Seq<BlockPos>,
    i: int,
    m: int,
)
    requires
        0 <= i <= m,
    ensures
        ({
            let a = ordered_of_wires(world, index, nodes, node_positions, positions, i).0;
            let c = ordered_of_wires(world, index, nodes, node_positions, positions, m).0;
            &&& a.len() <= c.len()
            &&& c.subrange(0, a.len() as int) == a
        }),
    decreases m - i,
{
    if i < m {
        lemma_ordered_prefix(world, index, nodes, node_positions, positions, i, m - 1);
        let a = ordered_of_wires(world, index, nodes, node_positions, positions, i).0;
        let b = ordered_of_wires(world, index, nodes, node_positions, positions, m - 1);
        lemma_wire_entries_grow(world, index, nodes, node_positions, positions[m - 1], 42, b);
        let c = ordered_of_wires(world, index, nodes, node_positions, positions, m).0;
        assert(c.subrange(0, a.len() as int) =~= c.subrange(0, b.0.len() as int).subrange(0, a.len() as int));
    } else {
        let a = ordered_of_wires(world, index, nodes, node_positions, positions, i).0;
        assert(a.subrange(0, a.len() as int) =~= a);
    }
}

proof fn lemma_boundary_bits(b: u32)
    requires
        b < 0x8000_0000,
    ensures
        flagged(0x8000_0000u32 | b),
        unflagged(0x8000_0000u32 | b) == b,
{
    assert(0x8000_0000u32 | b >= 0x8000_0000u32) by (bit_vector);
    assert(b < 0x8000_0000u32 ==> ((0x8000_0000u32 | b) - 0x8000_0000u32) as u32 == b) by (bit_vector);
}

/// The ordered update table of the wires at `positions`: for each wire, the
/// blocks its change updates, in Java's order, each with its six neighbours
/// in update order; a neighbour is listed when it is a wire, or, as a new
/// boundary block, when it is of a known state that reacts to neighbour
/// updates, with the fast-input node standing there, if any.
pub fn compile_ordered_wire_targets(
    world: &WorldView,
    positions: &Vec<BlockPos>,
    index: &PositionMap<NetworkWireId>,
    nodes: &Vec<NetworkNode>,
    node_positions: &PositionMap<NetworkNodeId>,
) -> (result: (Vec<u32>, Vec<OrderedWireTarget>, Vec<OrderedBoundaryTarget>))
    requires
        positions@.len() <= 0x0300_0000,
        indexes_positions(index, positions@),
        forall|p: BlockPos| #[trigger] node_positions.has(p) ==> node_positions.at(p).0 < nodes@.len(),
    ensures
        (result.1@, result.2@) == ordered_of_wires(world, index, nodes@, node_positions, positions@, positions@.len() as int),
        csr_valid(result.0@, positions@.len() as int, result.1@.len() as int),
        forall|i: int|
            0 <= i <= positions@.len() ==> #[trigger] result.0@[i] == ordered_of_wires(
                world,
                index,
                nodes@,
                node_positions,
                positions@,
                i,
            ).0.len(),
        entries_valid(result.1@, positions@.len() as int, result.2@.len() as int),
{
    let ghost n = positions@.len() as int;
    let order = Direction::update_order();
    let mut offsets: Vec<u32> = Vec::new();
    let mut targets: Vec<OrderedWireTarget> = Vec::new();
    let mut boundaries: Vec<OrderedBoundaryTarget> = Vec::new();
    offsets.push(0);
    let mut k: usize = 0;
    while k < positions.len()
        invariant
            n == positions@.len(),
            n <= 0x0300_0000,
            k <= n,
            indexes_positions(index, positions@),
            forall|p: BlockPos| #[trigger] node_positions.has(p) ==> node_positions.at(p).0 < nodes@.len(),
            forall|i: int| 0 <= i < 6 ==> #[trigger] order@[i] == spec_update_order(i),
            (targets@, boundaries@) == ordered_of_wires(world, index, nodes@, node_positions, positions@, k as int),
            targets@.len() <= 42 * k,
            boundaries@.len() <= 42 * k,
            entries_valid(targets@, n, boundaries@.len() as int),
            offsets@.len() == k + 1,
            forall|i: int|
                0 <= i <= k ==> #[trigger] offsets@[i] == ordered_of_wires(
                    world,
                    index,
                    nodes@,
                    node_positions,
                    positions@,
                    i,
                ).0.len(),
        decreases n - k,
    {
        let wire = positions[k];
        let candidates = default_wire_update_positions(wire);
        let ghost start = (targets@, boundaries@);
        let mut m: usize = 0;
        while m < 42
            invariant
                m <= 42,
                n == positions@.len(),
                n <= 0x0300_0000,
                k < n,
                indexes_positions(index, positions@),
                forall|p: BlockPos| #[trigger] node_positions.has(p) ==> node_positions.at(p).0 < nodes@.len(),
                forall|i: int| 0 <= i < 6 ==> #[trigger] order@[i] == spec_update_order(i),
                candidates@ == by_bucket(update_candidates(wire), 16),
                start.0.len() <= 42 * k,
                start.1.len() <= 42 * k,
                (targets@, boundaries@) == wire_entries(world, index, nodes@, node_positions, wire, m as int, start),
                targets@.len() <= start.0.len() + m,
                boundaries@.len() <= start.1.len() + m,
                entries_valid(targets@, n, boundaries@.len() as int),
            decreases 42 - m,
        {
            let candidate = candidates[m / 6];
            let direction = order[m % 6];
            let pos = candidate.relative(direction);
            let ghost before = (targets@, boundaries@);
            match index.get(pos) {
                Some(id) => {
                    targets.push(OrderedWireTarget::wire(*id));
                    proof {
                        assert(index.has(pos));
                        assert(id.0 < n);
                        assert forall|q: int| 0 <= q < targets@.len() implies if flagged((#[trigger] targets@[q]).0) {
                            unflagged(targets@[q].0) < boundaries@.len()
                        } else {
                            targets@[q].0 < n
                        } by {
                            if q < before.0.len() {
                                assert(targets@[q] == before.0[q]);
                            }
                        }
                    }
                },
                None => {
                    let reacts = match world.blocks.get(pos) {
                        Some(info) => info.known && info.updates_neighbors,
                        None => false,
                    };
                    if reacts {
                        let fast_input_node = match node_positions.get(pos) {
                            Some(node) => {
                                if nodes[node.index()].fast_input {
                                    Some(*node)
                                } else {
                                    None
                                }
                            },
                            None => None,
                        };
                        let b = boundaries.len() as u32;
                        proof {
                            lemma_boundary_bits(b);
                        }
                        targets.push(OrderedWireTarget::boundary(b));
                        boundaries.push(OrderedBoundaryTarget { pos, source_pos: candidate, fast_input_node });
                        proof {
                            assert forall|q: int| 0 <= q < targets@.len() implies if flagged((#[trigger] targets@[q]).0) {
                                unflagged(targets@[q].0) < boundaries@.len()
                            } else {
                                targets@[q].0 < n
                            } by {
                                if q < before.0.len() {
                                    assert(targets@[q] == before.0[q]);
                                }
                            }
                        }
                    }
                },
            }
            proof {
                assert((m + 1 - 1) / 6 == m / 6 && (m + 1 - 1) % 6 == m % 6);
                assert((targets@, boundaries@) == wire_entries(world, index, nodes@, node_positions, wire, m + 1, start));
            }
            m += 1;
        }
        proof {
            assert(ordered_of_wires(world, index, nodes@, node_positions, positions@, k + 1) == wire_entries(
                world,
                index,
                nodes@,
                node_positions,
                positions@[k as int],
                42,
                ordered_of_wires(world, index, nodes@, node_positions, positions@, k as int),
            ));
        }
        offsets.push(targets.len() as u32);
        proof {
            assert forall|i: int| 0 <= i <= k + 1 implies #[trigger] offsets@[i] == ordered_of_wires(
                world,
                index,
                nodes@,
                node_positions,
                positions@,
                i,
            ).0.len() by {
                if i <= k {
                    assert(offsets@[i] == offsets@.drop_last()[i]);
                }
            }
        }
        k += 1;
    }
    proof {
        assert forall|i: int, j: int| 0 <= i <= j <= n implies offsets@[i] <= offsets@[j] by {
            lemma_ordered_prefix(world, index, nodes@, node_positions, positions@, i, j);
        }
    }
    (offsets, targets, boundaries)
}

/// Whether wire ids are strictly ascending.
pub open spec fn ids_ascending(ids: Seq<NetworkWireId>) -> bool {
    forall|a: int, b: int| 0 <= a < b < ids.len() ==> ids[a].0 < ids[b].0
}

/// Adds `wire` to ascending ids, in its place, unless it is there.
fn insert_wire(list: &mut Vec<NetworkWireId>, wire: NetworkWireId)
    requires
        ids_ascending(old(list)@),
    ensures
        ids_ascending(final(list)@),
        forall|w: NetworkWireId| final(list)@.contains(w) <==> (old(list)@.contains(w) || w == wire),
{
    let mut i: usize = 0;
    while i < list.len() && list[i].0 < wire.0
        invariant
            i <= list@.len(),
            list@ == old(list)@,
            forall|j: int| 0 <= j < i ==> (#[trigger] list@[j]).0 < wire.0,
        decreases list@.len() - i,
    {
        i += 1;
    }
    if i < list.len() && list[i].0 == wire.0 {
        proof {
            assert(list@[i as int] == wire);
        }
        return;
    }
    let ghost before = list@;
    list.insert(i, wire);
    proof {
        assert(i < before.len() ==> wire.0 < before[i as int].0);
        assert forall|a: int, b: int| 0 <= a < b < list@.len() implies list@[a].0 < list@[b].0 by {
            if b < i {
            } else if b == i {
                assert(list@[a] == before[a]);
            } else if a < i {
                assert(list@[a] == before[a]);
                assert(list@[b] == before[b - 1]);
                if b - 1 > i {
                    assert(before[i as int].0 < before[b - 1].0);
                }
            } else if a == i {
                assert(list@[b] == before[b - 1]);
                if b - 1 > i {
                    assert(before[i as int].0 < before[b - 1].0);
                }
            } else {
                assert(list@[a] == before[a - 1]);
                assert(list@[b] == before[b - 1]);
            }
        }
        assert forall|w: NetworkWireId| list@.contains(w) <==> (before.contains(w) || w == wire) by {
            if list@.contains(w) {
                let k = choose|k: int| 0 <= k < list@.len() && list@[k] == w;
                if k < i {
                    assert(before[k] == w);
                } else if k > i {
                    assert(before[k - 1] == w);
                }
            }
            if before.contains(w) {
                let k = choose|k: int| 0 <= k < before.len() && before[k] == w;
                if k < i {
                    assert(list@[k] == w);
                } else {
                    assert(list@[k + 1] == w);
                }
            }
            if w == wire {
                assert(list@[i as int] == w);
            }
        }
        assert(before == old(list)@);
        assert forall|w: NetworkWireId| #[trigger] list@.contains(w) <==> (old(list)@.contains(w) || w == wire) by {
            assert(list@.contains(w) <==> (before.contains(w) || w == wire));
        }
    }
}

/// Whether the anchor table lists `wire` at `pos`.
pub open spec fn anchors_list(anchors: &PositionMap<Vec<NetworkWireId>>, pos: BlockPos, wire: NetworkWireId) -> bool {
    anchors.has(pos) && anchors.at(pos)@.contains(wire)
}

/// Whether every list of the anchor table is strictly ascending.
pub open spec fn anchors_ascending(anchors: &PositionMap<Vec<NetworkWireId>>) -> bool {
    forall|p: BlockPos| #[trigger] anchors.has(p) ==> ids_ascending(anchors.at(p)@)
}

/// Lists `wire` at `pos` in the anchor table.
fn add_anchor(anchors: &mut PositionMap<Vec<NetworkWireId>>, pos: BlockPos, wire: NetworkWireId)
    requires
        anchors_ascending(old(anchors)),
    ensures
        anchors_ascending(final(anchors)),
        forall|p: BlockPos| #[trigger] final(anchors).has(p) <==> (old(anchors).has(p) || p == pos),
        forall|p: BlockPos, w: NetworkWireId|
            #[trigger] anchors_list(final(anchors), p, w) <==> (anchors_list(old(anchors), p, w) || (p == pos && w
                == wire)),
{
    let ghost before = *anchors;
    let mut list = match anchors.remove(pos) {
        Some(list) => list,
        None => Vec::new(),
    };
    proof {
        if before.has(pos) {
            assert(list@ == before.at(pos)@);
        }
    }
    insert_wire(&mut list, wire);
    anchors.insert(pos, list);
    proof {
        assert forall|p: BlockPos| #[trigger] anchors.has(p) <==> (before.has(p) || p == pos) by {
            crate::posmap::lemma_pack_injective(p, pos);
        }
        assert forall|p: BlockPos| #[trigger] anchors.has(p) implies ids_ascending(anchors.at(p)@) by {
            crate::posmap::lemma_pack_injective(p, pos);
            if p != pos {
                assert(anchors.at(p) == before.at(p));
            }
        }
        assert forall|p: BlockPos, w: NetworkWireId|
            #[trigger] anchors_list(anchors, p, w) <==> (anchors_list(&before, p, w) || (p == pos && w == wire)) by {
            crate::posmap::lemma_pack_injective(p, pos);
            if p != pos {
                if anchors.has(p) {
                    assert(anchors.at(p) == before.at(p));
                }
            }
        }
    }
}

/// Whether the block of a node is a known signal source.
pub open spec fn powering_node(world: &WorldView, node: NetworkNode) -> bool {
    spec_is_signal_source(node.kind) && world.blocks.has(node.pos) && world.blocks.at(node.pos).known
}

/// Whether a node gives weak output in update direction `d` to the wire `w`
/// that stands opposite that direction.
pub open spec fn weak_feed(world: &WorldView, index: &PositionMap<NetworkWireId>, node: NetworkNode, d: int, w: NetworkWireId) -> bool {
    let info = world.blocks.at(node.pos);
    let direction = spec_update_order(d);
    let pos = spec_relative(node.pos, spec_opposite(direction));
    &&& powering_node(world, node)
    &&& spec_provides_weak_output(info.behavior, info.facing, direction)
    &&& index.has(pos)
    &&& index.at(pos) == w
}

/// The block through which a node gives strong output in update direction `d`.
pub open spec fn bridge_of(node: NetworkNode, d: int) -> BlockPos {
    spec_relative(node.pos, spec_opposite(spec_update_order(d)))
}

/// Whether a node gives strong output in update direction `d` into a
/// conducting block beside which wire `w` stands, in update direction `f`
/// seen from the wire.
pub open spec fn strong_feed(
    world: &WorldView,
    index: &PositionMap<NetworkWireId>,
    node: NetworkNode,
    d: int,
    f: int,
    w: NetworkWireId,
) -> bool {
    let info = world.blocks.at(node.pos);
    let direction = spec_update_order(d);
    let bridge = bridge_of(node, d);
    let pos = spec_relative(bridge, spec_opposite(spec_update_order(f)));
    &&& powering_node(world, node)
    &&& spec_provides_strong_output(info.behavior, info.properties@, info.facing, direction)
    &&& world.conducts(bridge)
    &&& index.has(pos)
    &&& index.at(pos) == w
}

/// Whether a node powers wire `w` in update direction `d` through a
/// conducting block, from any side of that block.
pub open spec fn strong_any(world: &WorldView, index: &PositionMap<NetworkWireId>, node: NetworkNode, d: int, w: NetworkWireId) -> bool {
    exists|f: int| 0 <= f < 6 && #[trigger] strong_feed(world, index, node, d, f, w)
}

/// Whether a node powers wire `w` through one of its first `upto` update
/// directions, weakly or through a conducting block.
pub open spec fn feeds_upto(world: &WorldView, index: &PositionMap<NetworkWireId>, node: NetworkNode, upto: int, w: NetworkWireId) -> bool {
    exists|d: int|
        #![trigger weak_feed(world, index, node, d, w)]
        #![trigger strong_any(world, index, node, d, w)]
        0 <= d < upto && (weak_feed(world, index, node, d, w) || strong_any(world, index, node, d, w))
}

/// Whether `bridge` is a conducting block through which a node powers wire
/// `w` from one of its first `upto` update directions.
pub open spec fn feeds_through_upto(
    world: &WorldView,
    index: &PositionMap<NetworkWireId>,
    node: NetworkNode,
    upto: int,
    bridge: BlockPos,
    w: NetworkWireId,
) -> bool {
    exists|d: int| #![trigger strong_any(world, index, node, d, w)]
        0 <= d < upto && strong_any(world, index, node, d, w) && bridge == bridge_of(node, d)
}

/// Whether a node powers wire `w`.
pub open spec fn feeds(world: &WorldView, index: &PositionMap<NetworkWireId>, node: NetworkNode, w: NetworkWireId) -> bool {
    feeds_upto(world, index, node, 6, w)
}

/// Whether `bridge` is a conducting block through which a node powers wire `w`.
pub open spec fn feeds_through(
    world: &WorldView,
    index: &PositionMap<NetworkWireId>,
    node: NetworkNode,
    bridge: BlockPos,
    w: NetworkWireId,
) -> bool {
    feeds_through_upto(world, index, node, 6, bridge, w)
}

/// The wires a node powers, and the conducting blocks through which it
/// powers each of them strongly.
fn node_feeds(world: &WorldView, index: &PositionMap<NetworkWireId>, node: &NetworkNode) -> (result: (
    Vec<NetworkWireId>,
    Vec<(BlockPos, NetworkWireId)>,
))
    ensures
        forall|w: NetworkWireId| #[trigger] result.0@.contains(w) <==> feeds(world, index, *node, w),
        forall|b: BlockPos, w: NetworkWireId| #[trigger] result.1@.contains((b, w)) <==> feeds_through(world, index, *node, b, w),
        result.0@.len() <= 42,
        result.1@.len() <= 36,
{
    let mut wires: Vec<NetworkWireId> = Vec::new();
    let mut bridges: Vec<(BlockPos, NetworkWireId)> = Vec::new();
    let known = match world.blocks.get(node.pos) {
        Some(info) => info.known,
        None => false,
    };
    if !is_signal_source(node.kind) || !known {
        proof {
            assert forall|w: NetworkWireId| #[trigger] wires@.contains(w) <==> feeds(world, index, *node, w) by {
                if feeds(world, index, *node, w) {
                    let d = choose|d: int| 0 <= d < 6 && (weak_feed(world, index, *node, d, w) || strong_any(world, index, *node, d, w));
                    if strong_any(world, index, *node, d, w) {
                        let f = choose|f: int| 0 <= f < 6 && #[trigger] strong_feed(world, index, *node, d, f, w);
                    }
                }
            }
            assert forall|b: BlockPos, w: NetworkWireId| #[trigger] bridges@.contains((b, w)) <==> feeds_through(world, index, *node, b, w) by {
                if feeds_through(world, index, *node, b, w) {
                    let d = choose|d: int| 0 <= d < 6 && strong_any(world, index, *node, d, w) && b == bridge_of(*node, d);
                    let f = choose|f: int| 0 <= f < 6 && #[trigger] strong_feed(world, index, *node, d, f, w);
                }
            }
        }
        return (wires, bridges);
    }
    let info = world.blocks.get(node.pos).unwrap();
    let order = Direction::update_order();
    let mut d: usize = 0;
    while d < 6
        invariant
            d <= 6,
            powering_node(world, *node),
            *info == world.blocks.at(node.pos),
            forall|i: int| 0 <= i < 6 ==> #[trigger] order@[i] == spec_update_order(i),
            forall|w: NetworkWireId| #[trigger] wires@.contains(w) <==> feeds_upto(world, index, *node, d as int, w),
            forall|b: BlockPos, w: NetworkWireId| #[trigger] bridges@.contains((b, w)) <==> feeds_through_upto(world, index, *node, d as int, b, w),
            wires@.len() <= 7 * d,
            bridges@.len() <= 6 * d,
        decreases 6 - d,
    {
        let direction = order[d];
        let pos = node.pos.relative(direction.opposite());
        let ghost wires0 = wires@;
        let ghost bridges0 = bridges@;
        let weak = provides_weak_output(info.behavior, info.facing, direction);
        if weak {
            match index.get(pos) {
                Some(w) => {
                    wires.push(*w);
                },
                None => {},
            }
        }
        let ghost wires1 = wires@;
        proof {
            assert forall|w: NetworkWireId| #[trigger] wires1.contains(w) <==> (wires0.contains(w) || weak_feed(world, index, *node, d as int, w)) by {
                if wires1.contains(w) && !wires0.contains(w) {
                    let k = choose|k: int| 0 <= k < wires1.len() && wires1[k] == w;
                    if k < wires0.len() {
                        assert(wires0[k] == w);
                    }
                }
                if wires0.contains(w) {
                    let k = choose|k: int| 0 <= k < wires0.len() && wires0[k] == w;
                    assert(wires1[k] == w);
                }
                if weak_feed(world, index, *node, d as int, w) {
                    assert(wires1[wires1.len() - 1] == w);
                }
            }
        }
        let strong = provides_strong_output(info.behavior, info.properties.as_slice(), info.facing, direction);
        let conducts = match world.blocks.get(pos) {
            Some(bridge) => bridge.known && bridge.conductor,
            None => false,
        };
        if strong && conducts {
            let mut f: usize = 0;
            while f < 6
                invariant
                    f <= 6,
                    d < 6,
                    strong && conducts,
                    powering_node(world, *node),
                    *info == world.blocks.at(node.pos),
                    direction == spec_update_order(d as int),
                    pos == bridge_of(*node, d as int),
                    spec_provides_strong_output(info.behavior, info.properties@, info.facing, direction),
                    world.conducts(pos),
                    forall|i: int| 0 <= i < 6 ==> #[trigger] order@[i] == spec_update_order(i),
                    forall|w: NetworkWireId| #[trigger] wires@.contains(w) <==> (wires1.contains(w) || exists|g: int|
                        0 <= g < f && #[trigger] strong_feed(world, index, *node, d as int, g, w)),
                    forall|b: BlockPos, w: NetworkWireId| #[trigger] bridges@.contains((b, w)) <==> (bridges0.contains((b, w))
                        || (b == pos && exists|g: int| 0 <= g < f && #[trigger] strong_feed(world, index, *node, d as int, g, w))),
                    wires@.len() <= wires1.len() + f,
                    bridges@.len() <= bridges0.len() + f,
                decreases 6 - f,
            {
                let side = pos.relative(order[f].opposite());
                let ghost wb = wires@;
                let ghost bb = bridges@;
                match index.get(side) {
                    Some(w) => {
                        wires.push(*w);
                        bridges.push((pos, *w));
                    },
                    None => {},
                }
                proof {
                    assert forall|w: NetworkWireId| #[trigger] wires@.contains(w) <==> (wires1.contains(w) || exists|g: int|
                        0 <= g < f + 1 && #[trigger] strong_feed(world, index, *node, d as int, g, w)) by {
                        if wires@.contains(w) && !wb.contains(w) {
                            let k = choose|k: int| 0 <= k < wires@.len() && wires@[k] == w;
                            if k < wb.len() {
                                assert(wb[k] == w);
                            }
                            assert(strong_feed(world, index, *node, d as int, f as int, w));
                        }
                        if wb.contains(w) {
                            let k = choose|k: int| 0 <= k < wb.len() && wb[k] == w;
                            assert(wires@[k] == w);
                        }
                        if exists|g: int| 0 <= g < f + 1 && #[trigger] strong_feed(world, index, *node, d as int, g, w) {
                            let g = choose|g: int| 0 <= g < f + 1 && #[trigger] strong_feed(world, index, *node, d as int, g, w);
                            if g == f {
                                assert(wires@[wires@.len() - 1] == w);
                            } else {
                                assert(wb.contains(w));
                            }
                        }
                    }
                    assert forall|b: BlockPos, w: NetworkWireId| #[trigger] bridges@.contains((b, w)) <==> (bridges0.contains((b, w))
                        || (b == pos && exists|g: int| 0 <= g < f + 1 && #[trigger] strong_feed(world, index, *node, d as int, g, w))) by {
                        if bridges@.contains((b, w)) && !bb.contains((b, w)) {
                            let k = choose|k: int| 0 <= k < bridges@.len() && bridges@[k] == (b, w);
                            if k < bb.len() {
                                assert(bb[k] == (b, w));
                            }
                            assert(strong_feed(world, index, *node, d as int, f as int, w));
                        }
                        if bb.contains((b, w)) {
                            let k = choose|k: int| 0 <= k < bb.len() && bb[k] == (b, w);
                            assert(bridges@[k] == (b, w));
                        }
                        if b == pos && exists|g: int| 0 <= g < f + 1 && #[trigger] strong_feed(world, index, *node, d as int, g, w) {
                            let g = choose|g: int| 0 <= g < f + 1 && #[trigger] strong_feed(world, index, *node, d as int, g, w);
                            if g == f {
                                assert(bridges@[bridges@.len() - 1] == (b, w));
                            } else {
                                assert(bb.contains((b, w)));
                            }
                        }
                    }
                }
                f += 1;
            }
            proof {
                assert forall|w: NetworkWireId| #[trigger] wires@.contains(w) <==> feeds_upto(world, index, *node, d + 1, w) by {
                    if wires@.contains(w) {
                        if wires0.contains(w) {
                            let e = choose|e: int| 0 <= e < d && (weak_feed(world, index, *node, e, w) || strong_any(world, index, *node, e, w));
                        } else if weak_feed(world, index, *node, d as int, w) {
                        } else {
                            let g = choose|g: int| 0 <= g < 6 && #[trigger] strong_feed(world, index, *node, d as int, g, w);
                            assert(strong_any(world, index, *node, d as int, w));
                        }
                    }
                    if feeds_upto(world, index, *node, d + 1, w) {
                        let e = choose|e: int| 0 <= e < d + 1 && (weak_feed(world, index, *node, e, w) || strong_any(world, index, *node, e, w));
                        if e < d {
                            assert(feeds_upto(world, index, *node, d as int, w));
                        } else if !weak_feed(world, index, *node, e, w) {
                            let g = choose|g: int| 0 <= g < 6 && #[trigger] strong_feed(world, index, *node, e, g, w);
                        }
                    }
                }
                assert forall|b: BlockPos, w: NetworkWireId| #[trigger] bridges@.contains((b, w)) <==> feeds_through_upto(world, index, *node, d + 1, b, w) by {
                    if bridges@.contains((b, w)) && !bridges0.contains((b, w)) {
                        let g = choose|g: int| 0 <= g < 6 && #[trigger] strong_feed(world, index, *node, d as int, g, w);
                        assert(strong_any(world, index, *node, d as int, w));
                    }
                    if feeds_through_upto(world, index, *node, d + 1, b, w) {
                        let e = choose|e: int| 0 <= e < d + 1 && strong_any(world, index, *node, e, w) && b == bridge_of(*node, e);
                        if e < d {
                            assert(feeds_through_upto(world, index, *node, d as int, b, w));
                        } else {
                            let g = choose|g: int| 0 <= g < 6 && #[trigger] strong_feed(world, index, *node, e, g, w);
                        }
                    }
                }
            }
        } else {
            proof {
                assert forall|w: NetworkWireId| #[trigger] wires@.contains(w) <==> feeds_upto(world, index, *node, d + 1, w) by {
                    if wires@.contains(w) {
                        if wires0.contains(w) {
                            let e = choose|e: int| 0 <= e < d && (weak_feed(world, index, *node, e, w) || strong_any(world, index, *node, e, w));
                        }
                    }
                    if feeds_upto(world, index, *node, d + 1, w) {
                        let e = choose|e: int| 0 <= e < d + 1 && (weak_feed(world, index, *node, e, w) || strong_any(world, index, *node, e, w));
                        if e < d {
                            assert(feeds_upto(world, index, *node, d as int, w));
                        } else if !weak_feed(world, index, *node, e, w) {
                            let g = choose|g: int| 0 <= g < 6 && #[trigger] strong_feed(world, index, *node, e, g, w);
                        }
                    }
                }
                assert forall|b: BlockPos, w: NetworkWireId| #[trigger] bridges@.contains((b, w)) <==> feeds_through_upto(world, index, *node, d + 1, b, w) by {
                    if feeds_through_upto(world, index, *node, d + 1, b, w) {
                        let e = choose|e: int| 0 <= e < d + 1 && strong_any(world, index, *node, e, w) && b == bridge_of(*node, e);
                        if e < d {
                            assert(feeds_through_upto(world, index, *node, d as int, b, w));
                        } else {
                            let g = choose|g: int| 0 <= g < 6 && #[trigger] strong_feed(world, index, *node, e, g, w);
                        }
                    }
                }
            }
        }
        d += 1;
    }
    (wires, bridges)
}

/// Whether `pos` anchors wire `w`: a node there powers it, or it is a
/// conducting block through which a node powers it.
pub open spec fn anchored_by(
    world: &WorldView,
    index: &PositionMap<NetworkWireId>,
    nodes: Seq<NetworkNode>,
    upto: int,
    pos: BlockPos,
    w: NetworkWireId,
) -> bool {
    exists|i: int|
        #![trigger nodes[i]]
        0 <= i < upto && ((nodes[i].pos == pos && feeds(world, index, nodes[i], w)) || feeds_through(
            world,
            index,
            nodes[i],
            pos,
            w,
        ))
}

/// Whether a key packs a wire and a node among the first `upto` nodes that
/// powers it.
pub open spec fn source_key(
    world: &WorldView,
    index: &PositionMap<NetworkWireId>,
    nodes: Seq<NetworkNode>,
    upto: int,
    key: u128,
) -> bool {
    exists|i: int, w: NetworkWireId|
        #![trigger feeds(world, index, nodes[i], w), pack_pair(w.0, i as u32)]
        0 <= i < upto && feeds(world, index, nodes[i], w) && key == pack_pair(w.0, i as u32)
}

/// Whether wire `w` is among the wires named by `index`'s values below `n`.
pub open spec fn index_below(index: &PositionMap<NetworkWireId>, n: int) -> bool {
    forall|p: BlockPos| #[trigger] index.has(p) ==> index.at(p).0 < n
}

proof fn lemma_fed_wire_below(world: &WorldView, index: &PositionMap<NetworkWireId>, node: NetworkNode, w: NetworkWireId, n: int)
    requires
        index_below(index, n),
        feeds(world, index, node, w),
    ensures
        w.0 < n,
{
    let d = choose|d: int| 0 <= d < 6 && (weak_feed(world, index, node, d, w) || strong_any(world, index, node, d, w));
    if weak_feed(world, index, node, d, w) {
        assert(index.has(spec_relative(node.pos, spec_opposite(spec_update_order(d)))));
    } else {
        let f = choose|f: int| 0 <= f < 6 && #[trigger] strong_feed(world, index, node, d, f, w);
        assert(index.has(spec_relative(bridge_of(node, d), spec_opposite(spec_update_order(f)))));
    }
}

/// The nodes that power each wire, indexed by wire, once each and by
/// ascending node id, and the anchor table: for each node the wires it
/// powers, and for each conducting block the wires powered through it.
pub fn compile_wire_sources(
    world: &WorldView,
    index: &PositionMap<NetworkWireId>,
    nodes: &Vec<NetworkNode>,
    wire_count: usize,
) -> (result: (Vec<u32>, Vec<NetworkWireSource>, PositionMap<Vec<NetworkWireId>>))
    requires
        nodes@.len() <= 0x0300_0000,
        wire_count <= 0x0300_0000,
        ids_in_order(nodes@),
        index_below(index, wire_count as int),
    ensures
        csr_valid(result.0@, wire_count as int, result.1@.len() as int),
        forall|w: int, i: int|
            0 <= w < wire_count && 0 <= i < nodes@.len() ==> (#[trigger] csr_slice(result.0@, result.1@, w).contains(
                NetworkWireSource { source: NetworkNodeId(i as u32) },
            ) <==> feeds(world, index, nodes@[i], NetworkWireId(w as u32))),
        forall|w: int| 0 <= w < wire_count ==> sources_ascending(#[trigger] csr_slice(result.0@, result.1@, w), nodes@.len() as int),
        anchors_ascending(&result.2),
        forall|p: BlockPos, w: NetworkWireId|
            #[trigger] anchors_list(&result.2, p, w) <==> anchored_by(world, index, nodes@, nodes@.len() as int, p, w),
{
    let mut keys: Vec<u128> = Vec::new();
    let mut anchors: PositionMap<Vec<NetworkWireId>> = PositionMap::new();
    let mut i: usize = 0;
    while i < nodes.len()
        invariant
            i <= nodes@.len(),
            nodes@.len() <= 0x0300_0000,
            wire_count <= 0x0300_0000,
            ids_in_order(nodes@),
            index_below(index, wire_count as int),
            keys@.len() <= 42 * i,
            forall|q: int| 0 <= q < keys@.len() ==> #[trigger] packs_below(keys@[q], wire_count as int, nodes@.len() as int),
            forall|key: u128| #[trigger] keys@.contains(key) <==> source_key(world, index, nodes@, i as int, key),
            anchors_ascending(&anchors),
            forall|p: BlockPos, w: NetworkWireId|
                #[trigger] anchors_list(&anchors, p, w) <==> anchored_by(world, index, nodes@, i as int, p, w),
        decreases nodes@.len() - i,
    {
        let node = &nodes[i];
        let (wires, bridges) = node_feeds(world, index, node);
        let ghost keys0 = keys@;
        let ghost anchors0 = anchors;
        let mut j: usize = 0;
        while j < wires.len()
            invariant
                j <= wires@.len(),
                wires@.len() <= 42,
                i < nodes@.len(),
                *node == nodes@[i as int],
                nodes@.len() <= 0x0300_0000,
                wire_count <= 0x0300_0000,
                index_below(index, wire_count as int),
                keys0.len() <= 42 * i,
                keys@.len() == keys0.len() + j,
                forall|w: NetworkWireId| #[trigger] wires@.contains(w) <==> feeds(world, index, *node, w),
                forall|q: int| 0 <= q < keys@.len() ==> #[trigger] packs_below(keys@[q], wire_count as int, nodes@.len() as int),
                forall|key: u128| #[trigger] keys@.contains(key) <==> (keys0.contains(key) || exists|k: int|
                    0 <= k < j && key == pack_pair(#[trigger] wires@[k].0, i as u32)),
                anchors_ascending(&anchors),
                forall|p: BlockPos, w: NetworkWireId|
                    #[trigger] anchors_list(&anchors, p, w) <==> (anchors_list(&anchors0, p, w) || (p == node.pos
                        && exists|k: int| 0 <= k < j && #[trigger] wires@[k] == w)),
            decreases wires@.len() - j,
        {
            let w = wires[j];
            proof {
                assert(wires@.contains(w));
                lemma_fed_wire_below(world, index, *node, w, wire_count as int);
            }
            let key = ((w.0 as u128) << 32u128) | (i as u32 as u128);
            let ghost kb = keys@;
            let ghost ab = anchors;
            proof {
                assert(key == pack_pair(w.0, i as u32));
                assert(packs_below(key, wire_count as int, nodes@.len() as int)) by {
                    assert(w.0 < wire_count && (i as u32) < nodes@.len() && key == pack_pair(w.0, i as u32));
                }
            }
            keys.push(key);
            add_anchor(&mut anchors, node.pos, w);
            proof {
                assert forall|key2: u128| #[trigger] keys@.contains(key2) <==> (keys0.contains(key2) || exists|k: int|
                    0 <= k < j + 1 && key2 == pack_pair(#[trigger] wires@[k].0, i as u32)) by {
                    if keys@.contains(key2) {
                        let q = choose|q: int| 0 <= q < keys@.len() && keys@[q] == key2;
                        if q < kb.len() {
                            assert(kb[q] == key2);
                            assert(kb.contains(key2));
                        }
                    }
                    if kb.contains(key2) {
                        let q = choose|q: int| 0 <= q < kb.len() && kb[q] == key2;
                        assert(keys@[q] == key2);
                    }
                    if exists|k: int| 0 <= k < j + 1 && key2 == pack_pair(#[trigger] wires@[k].0, i as u32) {
                        let k = choose|k: int| 0 <= k < j + 1 && key2 == pack_pair(#[trigger] wires@[k].0, i as u32);
                        if k == j {
                            assert(keys@[keys@.len() - 1] == key2);
                        } else {
                            assert(kb.contains(key2));
                        }
                    }
                }
                assert forall|p: BlockPos, w2: NetworkWireId|
                    #[trigger] anchors_list(&anchors, p, w2) <==> (anchors_list(&anchors0, p, w2) || (p == node.pos
                        && exists|k: int| 0 <= k < j + 1 && #[trigger] wires@[k] == w2)) by {
                    if p == node.pos && exists|k: int| 0 <= k < j + 1 && #[trigger] wires@[k] == w2 {
                        let k = choose|k: int| 0 <= k < j + 1 && #[trigger] wires@[k] == w2;
                        if k < j {
                            assert(anchors_list(&ab, p, w2));
                        }
                    }
                }
            }
            j += 1;
        }
        let ghost anchors1 = anchors;
        let mut j: usize = 0;
        while j < bridges.len()
            invariant
                j <= bridges@.len(),
                i < nodes@.len(),
                *node == nodes@[i as int],
                forall|b: BlockPos, w: NetworkWireId| #[trigger] bridges@.contains((b, w)) <==> feeds_through(world, index, *node, b, w),
                anchors_ascending(&anchors),
                forall|p: BlockPos, w: NetworkWireId|
                    #[trigger] anchors_list(&anchors, p, w) <==> (anchors_list(&anchors1, p, w) || exists|k: int|
                        0 <= k < j && #[trigger] bridges@[k] == (p, w)),
            decreases bridges@.len() - j,
        {
            let (b, w) = bridges[j];
            let ghost ab = anchors;
            add_anchor(&mut anchors, b, w);
            proof {
                assert forall|p: BlockPos, w2: NetworkWireId|
                    #[trigger] anchors_list(&anchors, p, w2) <==> (anchors_list(&anchors1, p, w2) || exists|k: int|
                        0 <= k < j + 1 && #[trigger] bridges@[k] == (p, w2)) by {
                    if anchors_list(&anchors, p, w2) && !anchors_list(&ab, p, w2) {
                        assert(bridges@[j as int] == (p, w2));
                    }
                    if exists|k: int| 0 <= k < j + 1 && #[trigger] bridges@[k] == (p, w2) {
                        let k = choose|k: int| 0 <= k < j + 1 && #[trigger] bridges@[k] == (p, w2);
                        if k < j {
                            assert(anchors_list(&ab, p, w2));
                        }
                    }
                }
            }
            j += 1;
        }
        proof {
            assert forall|key: u128| #[trigger] keys@.contains(key) <==> source_key(world, index, nodes@, i + 1, key) by {
                if keys@.contains(key) && !keys0.contains(key) {
                    let k = choose|k: int| 0 <= k < wires@.len() && key == pack_pair(#[trigger] wires@[k].0, i as u32);
                    assert(wires@.contains(wires@[k]));
                    assert(feeds(world, index, nodes@[i as int], wires@[k]));
                }
                if keys0.contains(key) {
                    let (i2, w2) = choose|i2: int, w2: NetworkWireId| 0 <= i2 < i && feeds(world, index, nodes@[i2], w2) && key == pack_pair(w2.0, i2 as u32);
                    assert(source_key(world, index, nodes@, i + 1, key));
                }
                if source_key(world, index, nodes@, i + 1, key) {
                    let (i2, w2) = choose|i2: int, w2: NetworkWireId| 0 <= i2 < i + 1 && feeds(world, index, nodes@[i2], w2) && key == pack_pair(w2.0, i2 as u32);
                    if i2 < i {
                        assert(source_key(world, index, nodes@, i as int, key));
                    } else {
                        assert(wires@.contains(w2));
                        let k = choose|k: int| 0 <= k < wires@.len() && wires@[k] == w2;
                        assert(keys@.contains(key));
                    }
                }
            }
            assert forall|p: BlockPos, w: NetworkWireId|
                #[trigger] anchors_list(&anchors, p, w) <==> anchored_by(world, index, nodes@, i + 1, p, w) by {
                if anchors_list(&anchors, p, w) {
                    if anchors_list(&anchors0, p, w) {
                        let i2 = choose|i2: int| 0 <= i2 < i && ((nodes@[i2].pos == p && feeds(world, index, nodes@[i2], w)) || feeds_through(world, index, nodes@[i2], p, w));
                        assert(anchored_by(world, index, nodes@, i + 1, p, w));
                    } else if anchors_list(&anchors1, p, w) {
                        let k = choose|k: int| 0 <= k < wires@.len() && #[trigger] wires@[k] == w;
                        assert(wires@.contains(w));
                        assert(nodes@[i as int].pos == p);
                        assert(anchored_by(world, index, nodes@, i + 1, p, w));
                    } else {
                        let k = choose|k: int| 0 <= k < bridges@.len() && #[trigger] bridges@[k] == (p, w);
                        assert(bridges@.contains((p, w)));
                        assert(anchored_by(world, index, nodes@, i + 1, p, w));
                    }
                }
                if anchored_by(world, index, nodes@, i + 1, p, w) {
                    let i2 = choose|i2: int| 0 <= i2 < i + 1 && ((nodes@[i2].pos == p && feeds(world, index, nodes@[i2], w)) || feeds_through(world, index, nodes@[i2], p, w));
                    if i2 < i {
                        assert(anchored_by(world, index, nodes@, i as int, p, w));
                    } else if nodes@[i2].pos == p && feeds(world, index, nodes@[i2], w) {
                        assert(wires@.contains(w));
                        let k = choose|k: int| 0 <= k < wires@.len() && wires@[k] == w;
                        assert(anchors_list(&anchors1, p, w));
                    } else {
                        assert(bridges@.contains((p, w)));
                        let k = choose|k: int| 0 <= k < bridges@.len() && bridges@[k] == (p, w);
                    }
                }
            }
        }
        i += 1;
    }
    let ghost all = keys@;
    let (offsets, ids) = index_pairs(&mut keys, wire_count, nodes.len());
    let mut sources: Vec<NetworkWireSource> = Vec::new();
    let mut k: usize = 0;
    while k < ids.len()
        invariant
            k <= ids@.len(),
            sources@ == ids@.subrange(0, k as int).map_values(|id: NetworkWireId| NetworkWireSource { source: NetworkNodeId(id.0) }),
        decreases ids@.len() - k,
    {
        sources.push(NetworkWireSource { source: NetworkNodeId(ids[k].0) });
        proof {
            assert(ids@.subrange(0, k + 1) =~= ids@.subrange(0, k as int).push(ids@[k as int]));
            assert(sources@ =~= ids@.subrange(0, k + 1).map_values(|id: NetworkWireId| NetworkWireSource { source: NetworkNodeId(id.0) }));
        }
        k += 1;
    }
    proof {
        assert(ids@.subrange(0, ids@.len() as int) =~= ids@);
        lemma_pairs_runs(all, wire_count as int, nodes@.len() as int, offsets@, ids@);
        assert forall|w: int, i: int|
            0 <= w < wire_count && 0 <= i < nodes@.len() implies (#[trigger] csr_slice(offsets@, sources@, w).contains(
                NetworkWireSource { source: NetworkNodeId(i as u32) },
            ) <==> feeds(world, index, nodes@[i], NetworkWireId(w as u32))) by {
            let run = csr_slice(offsets@, ids@, w);
            let mapped = csr_slice(offsets@, sources@, w);
            assert(mapped =~= run.map_values(|id: NetworkWireId| NetworkWireSource { source: NetworkNodeId(id.0) }));
            if mapped.contains(NetworkWireSource { source: NetworkNodeId(i as u32) }) {
                let a = choose|a: int| 0 <= a < mapped.len() && mapped[a] == NetworkWireSource { source: NetworkNodeId(i as u32) };
                assert(run[a] == NetworkWireId(i as u32));
                assert(run.contains(NetworkWireId(i as u32)));
            }
            if run.contains(NetworkWireId(i as u32)) {
                let a = choose|a: int| 0 <= a < run.len() && run[a] == NetworkWireId(i as u32);
                assert(mapped[a] == NetworkWireSource { source: NetworkNodeId(i as u32) });
            }
            if all.contains(pack_pair(w as u32, i as u32)) {
                let (i2, w2) = choose|i2: int, w2: NetworkWireId| 0 <= i2 < nodes@.len() && feeds(world, index, nodes@[i2], w2) && pack_pair(w as u32, i as u32) == pack_pair(w2.0, i2 as u32);
                crate::compiled::static_network::lemma_pack_pair(w as u32, i as u32);
                crate::compiled::static_network::lemma_pack_pair(w2.0, i2 as u32);
                assert(w2 == NetworkWireId(w as u32));
            }
            if feeds(world, index, nodes@[i], NetworkWireId(w as u32)) {
                assert(source_key(world, index, nodes@, nodes@.len() as int, pack_pair(w as u32, i as u32)));
            }
        }
        assert forall|w: int| 0 <= w < wire_count implies sources_ascending(#[trigger] csr_slice(offsets@, sources@, w), nodes@.len() as int) by {
            let run = csr_slice(offsets@, ids@, w);
            let mapped = csr_slice(offsets@, sources@, w);
            assert(mapped =~= run.map_values(|id: NetworkWireId| NetworkWireSource { source: NetworkNodeId(id.0) }));
            assert(unique_wires_below(run, nodes@.len() as int));
        }
    }
    (offsets, sources, anchors)
}

/// Whether the sources of a wire name, by strictly ascending id, only nodes
/// below `n`.
pub open spec fn sources_ascending(sources: Seq<NetworkWireSource>, n: int) -> bool {
    &&& forall|a: int, b: int| 0 <= a < b < sources.len() ==> sources[a].source.0 < sources[b].source.0
    &&& forall|a: int| 0 <= a < sources.len() ==> sources[a].source.0 < n
}

/// Whether wire `t` of `positions` reads power from wire `s` in the world:
/// the wire at the position of `t` connects to the position of `s`.
pub open spec fn world_linked(world: &WorldView, positions: Seq<BlockPos>, s: int, t: int) -> bool {
    0 <= s < positions.len() && 0 <= t < positions.len() && world.connects(positions[t], positions[s])
}

/// The dense wire graph of the world's wires: ids by ascending position;
/// each wire's state and recorded power; the wires each wire powers and is
/// powered by, once each by ascending id; the nodes that power it, once each
/// by ascending id, with the anchor table of the blocks that do; its
/// observers; and its ordered update list with the boundary blocks. The
/// node input table starts empty.
pub fn compile_wire_graph(
    world: &WorldView,
    nodes: &Vec<NetworkNode>,
    node_positions: &PositionMap<NetworkNodeId>,
) -> (graph: DenseWireGraph)
    requires
        world.valid(),
        world.order@.len() <= 0x0300_0000,
        nodes@.len() <= 0x0300_0000,
        ids_in_order(nodes@),
        forall|p: BlockPos| #[trigger] node_positions.has(p) ==> node_positions.at(p).0 < nodes@.len(),
    ensures
        ({
            let n = graph.positions@.len() as int;
            let ps = graph.positions@;
            &&& graph.position_index.size() == n
            &&& positions_ascending(ps)
            &&& forall|p: BlockPos| #[trigger] ps.contains(p) <==> world.wire_at(p)
            &&& indexes_positions(&graph.position_index, ps)
            &&& graph.states@.len() == n
            &&& graph.initial_power@.len() == n
            &&& forall|i: int| 0 <= i < n ==> #[trigger] graph.states@[i] == world.blocks.at(ps[i]).state
            &&& forall|i: int| 0 <= i < n ==> #[trigger] graph.initial_power@[i] == world.blocks.at(ps[i]).power
            &&& csr_valid(graph.dependent_offsets@, n, graph.dependents@.len() as int)
            &&& csr_valid(graph.predecessor_offsets@, n, graph.predecessors@.len() as int)
            &&& forall|s: int| 0 <= s < n ==> unique_wires_below(#[trigger] graph.dependents_of(s), n)
            &&& forall|t: int| 0 <= t < n ==> unique_wires_below(#[trigger] graph.predecessors_of(t), n)
            &&& forall|s: int, t: int|
                0 <= s < n && 0 <= t < n ==> (#[trigger] graph.dependents_of(s).contains(NetworkWireId(t as u32))
                    <==> world_linked(world, ps, s, t))
            &&& forall|s: int, t: int|
                0 <= s < n && 0 <= t < n ==> (#[trigger] graph.predecessors_of(t).contains(NetworkWireId(s as u32))
                    <==> world_linked(world, ps, s, t))
            &&& csr_valid(graph.source_offsets@, n, graph.sources@.len() as int)
            &&& forall|w: int, i: int|
                0 <= w < n && 0 <= i < nodes@.len() ==> (#[trigger] graph.sources_of(w).contains(
                    NetworkWireSource { source: NetworkNodeId(i as u32) },
                ) <==> feeds(world, &graph.position_index, nodes@[i], NetworkWireId(w as u32)))
            &&& forall|w: int| 0 <= w < n ==> sources_ascending(#[trigger] graph.sources_of(w), nodes@.len() as int)
            &&& anchors_ascending(&graph.source_anchors)
            &&& forall|p: BlockPos, w: NetworkWireId|
                #[trigger] anchors_list(&graph.source_anchors, p, w) <==> anchored_by(
                    world,
                    &graph.position_index,
                    nodes@,
                    nodes@.len() as int,
                    p,
                    w,
                )
            &&& graph.target_offsets@ == seq![0u32]
            &&& graph.targets@.len() == 0
            &&& csr_valid(graph.ordered_target_offsets@, n, graph.ordered_targets@.len() as int)
            &&& (graph.ordered_targets@, graph.ordered_boundaries@) == ordered_of_wires(
                world,
                &graph.position_index,
                nodes@,
                node_positions,
                ps,
                n,
            )
            &&& forall|i: int|
                0 <= i <= n ==> #[trigger] graph.ordered_target_offsets@[i] == ordered_of_wires(
                    world,
                    &graph.position_index,
                    nodes@,
                    node_positions,
                    ps,
                    i,
                ).0.len()
            &&& graph.ordered_entries_valid()
            &&& csr_valid(graph.observer_offsets@, n, graph.observers@.len() as int)
            &&& forall|i: int| 0 <= i < n ==> #[trigger] csr_slice(graph.observer_offsets@, graph.observers@, i)
                == wire_observers(world, ps[i])
        }),
{
    let positions = wire_positions(world);
    proof {
        assert(positions@.len() <= world.order@.len()) by {
            lemma_subset_len(positions@, world.order@);
        }
    }
    let ghost n = positions@.len() as int;
    let mut states: Vec<BlockStateId> = Vec::new();
    let mut initial_power: Vec<u8> = Vec::new();
    let mut position_index: PositionMap<NetworkWireId> = PositionMap::new();
    let mut k: usize = 0;
    while k < positions.len()
        invariant
            k <= positions@.len(),
            n == positions@.len(),
            n <= 0x0300_0000,
            positions_ascending(positions@),
            forall|p: BlockPos| #[trigger] positions@.contains(p) <==> world.wire_at(p),
            states@.len() == k,
            initial_power@.len() == k,
            forall|i: int| 0 <= i < k ==> #[trigger] states@[i] == world.blocks.at(positions@[i]).state,
            forall|i: int| 0 <= i < k ==> #[trigger] initial_power@[i] == world.blocks.at(positions@[i]).power,
            forall|i: int| 0 <= i < k ==> #[trigger] position_index.has(positions@[i]) && position_index.at(positions@[i]).0 == i,
            forall|p: BlockPos| #[trigger] position_index.has(p) ==> position_index.at(p).0 < k && positions@[position_index.at(p).0 as int] == p,
            position_index.keyed().dom().finite(),
            position_index.size() == k,
        decreases positions@.len() - k,
    {
        let pos = positions[k];
        let ghost head = position_index;
        proof {
            assert(positions@.contains(pos));
            assert forall|i: int| 0 <= i < k implies head.has(#[trigger] positions@[i]) && head.at(positions@[i]).0 == i by {
                assert(position_index.has(positions@[i]) && position_index.at(positions@[i]).0 == i);
            }
        }
        let info = world.blocks.get(pos).unwrap();
        states.push(info.state);
        initial_power.push(info.power);
        let ghost before = position_index;
        proof {
            if before.has(pos) {
                let j = before.at(pos).0 as int;
                assert(positions@[j] == pos);
                assert(pos_lt(positions@[j], positions@[k as int]));
            }
        }
        position_index.insert(pos, NetworkWireId(k as u32));
        proof {
            assert(position_index.keyed().dom() == before.keyed().dom().insert(crate::posmap::pack(pos)));
            assert(position_index.size() == k + 1);
            assert forall|i: int| 0 <= i < k + 1 implies #[trigger] position_index.has(positions@[i]) && position_index.at(positions@[i]).0 == i by {
                crate::posmap::lemma_pack_injective(positions@[i], pos);
                if i < k {
                    assert(pos_lt(positions@[i], positions@[k as int]));
                    assert(head.has(positions@[i]) && head.at(positions@[i]).0 == i);
                }
            }
            assert forall|p: BlockPos| #[trigger] position_index.has(p) implies position_index.at(p).0 < k + 1 && positions@[position_index.at(p).0 as int] == p by {
                crate::posmap::lemma_pack_injective(p, pos);
                if p != pos {
                    assert(before.has(p));
                }
            }
        }
        k += 1;
    }
    let view = wire_view(world);
    let (dependent_offsets, dependents, predecessor_offsets, predecessors) = compile_links(&positions, &position_index, &view);
    let (observer_offsets, observers) = compile_wire_observers(world, &positions);
    let (ordered_target_offsets, ordered_targets, ordered_boundaries) = compile_ordered_wire_targets(
        world,
        &positions,
        &position_index,
        nodes,
        node_positions,
    );
    let (source_offsets, sources, source_anchors) = compile_wire_sources(world, &position_index, nodes, positions.len());
    let graph = DenseWireGraph {
        positions,
        states,
        initial_power,
        position_index,
        dependent_offsets,
        dependents,
        predecessor_offsets,
        predecessors,
        source_offsets,
        sources,
        target_offsets: vec![0u32],
        targets: Vec::new(),
        ordered_target_offsets,
        ordered_targets,
        ordered_boundaries,
        observer_offsets,
        observers,
        source_anchors,
    };
    proof {
        let ps = graph.positions@;
        assert forall|s: int, t: int|
            0 <= s < n && 0 <= t < n implies (#[trigger] graph.dependents_of(s).contains(NetworkWireId(t as u32))
                <==> world_linked(world, ps, s, t)) by {
            lemma_view_connects(world, &view, ps[t], ps[s]);
        }
        assert forall|s: int, t: int|
            0 <= s < n && 0 <= t < n implies (#[trigger] graph.predecessors_of(t).contains(NetworkWireId(s as u32))
                <==> world_linked(world, ps, s, t)) by {
            lemma_view_connects(world, &view, ps[t], ps[s]);
        }
        assert forall|k: int| 0 <= k < graph.ordered_targets@.len() implies {
            let target = #[trigger] graph.ordered_targets@[k];
            if flagged(target.0) {
                unflagged(target.0) < graph.ordered_boundaries@.len()
            } else {
                target.0 < graph.count()
            }
        } by {
            assert(entries_valid(graph.ordered_targets@, n, graph.ordered_boundaries@.len() as int));
        }
    }
    graph
}

/// A strictly ascending list of positions drawn from another is no longer.
pub proof fn lemma_subset_len(a: Seq<BlockPos>, b: Seq<BlockPos>)
    requires
        positions_ascending(a),
        positions_ascending(b),
        forall|p: BlockPos| #[trigger] a.contains(p) ==> b.contains(p),
    ensures
        a.len() <= b.len(),
    decreases a.len(),
{
    if a.len() > 0 {
        let last = a.last();
        assert(a.contains(last));
        assert(b.contains(last));
        let j = choose|j: int| 0 <= j < b.len() && b[j] == last;
        let a2 = a.drop_last();
        let b2 = b.subrange(0, j);
        assert forall|p: BlockPos| #[trigger] a2.contains(p) implies b2.contains(p) by {
            let i = choose|i: int| 0 <= i < a2.len() && a2[i] == p;
            assert(a[i] == p);
            assert(pos_lt(p, last));
            assert(a.contains(p));
            assert(b.contains(p));
            let m = choose|m: int| 0 <= m < b.len() && b[m] == p;
            if m >= j {
                if m > j {
                    assert(pos_lt(b[j], b[m]));
                }
            }
            assert(b2[m] == p);
        }
        lemma_subset_len(a2, b2);
    }
}

} // verus!
