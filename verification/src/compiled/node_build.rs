//! Finding the network's nodes in a world snapshot: every block of a known
//! state whose behaviour the network models, numbered by ascending
//! position, with its kind, initial output and, for a comparator reading
//! through a conducting block, the position it reads beyond it.

use vstd::prelude::*;

use crate::compiled::network::{
    identify_kind, spec_identify_kind, NetworkInputPower, NetworkNode, NetworkNodeId, NetworkNodeKind,
};
use crate::compiled::passes::positions_ascending;
use crate::compiled::sources::{initial_output, spec_source_output};
use crate::compiled::world::WorldView;
use crate::position::{pos_lt, spec_relative, BlockPos, Direction};
use crate::posmap::{lemma_pack_injective, PositionMap};

verus! {

/// The node kind of the block at `pos`, if it is of a known state whose
/// behaviour the network models.
pub open spec fn node_kind_at(world: &WorldView, pos: BlockPos) -> Option<NetworkNodeKind> {
    if world.blocks.has(pos) && world.blocks.at(pos).known {
        spec_identify_kind(world.blocks.at(pos).behavior)
    } else {
        None
    }
}

/// The direction a block faces, north when it names none.
pub open spec fn facing_or_north(facing: Option<Direction>) -> Direction {
    match facing {
        Some(direction) => direction,
        None => Direction::North,
    }
}

/// The position a comparator at `pos` reads beyond a conducting block
/// behind it, if that block conducts.
pub open spec fn far_input_of(world: &WorldView, pos: BlockPos, kind: NetworkNodeKind) -> Option<BlockPos> {
    let facing = facing_or_north(world.blocks.at(pos).facing);
    let rear = spec_relative(pos, facing);
    if kind == NetworkNodeKind::Comparator && world.conducts(rear) {
        Some(spec_relative(rear, facing))
    } else {
        None
    }
}

/// The node numbered `id` that the block at `pos` of kind `kind` makes.
pub open spec fn node_of_block(world: &WorldView, pos: BlockPos, id: int, kind: NetworkNodeKind) -> NetworkNode {
    let info = world.blocks.at(pos);
    NetworkNode {
        id: NetworkNodeId(id as u32),
        pos,
        state: info.state,
        kind,
        initial_output: match spec_source_output(info.behavior, info.properties@, info.power, info.open_count) {
            Some(value) => value,
            None => 0,
        },
        constant_output: if kind == NetworkNodeKind::Constant {
            Some(15u8)
        } else {
            None
        },
        constant_input: NetworkInputPower { default: 0, side: 0 },
        comparator_far_input: far_input_of(world, pos, kind),
        fast_input: kind == NetworkNodeKind::Torch || kind == NetworkNodeKind::Repeater,
        first_edge: 0,
        edge_count: 0,
    }
}

/// The nodes of the world, numbered by ascending position, with the index
/// of their positions.
pub fn identify_nodes(world: &WorldView) -> (result: (Vec<NetworkNode>, PositionMap<NetworkNodeId>))
    requires
        world.valid(),
        world.order@.len() <= u32::MAX,
    ensures
        ({
            let nodes = result.0@;
            let index = result.1;
            &&& positions_ascending(nodes.map_values(|node: NetworkNode| node.pos))
            &&& forall|i: int|
                0 <= i < nodes.len() ==> node_kind_at(world, #[trigger] nodes[i].pos) is Some && nodes[i]
                    == node_of_block(world, nodes[i].pos, i, node_kind_at(world, nodes[i].pos)->0)
            &&& forall|p: BlockPos| #[trigger] index.has(p) <==> node_kind_at(world, p) is Some
            &&& forall|p: BlockPos|
                #[trigger] index.has(p) ==> index.at(p).0 < nodes.len() && nodes[index.at(p).0 as int].pos == p
        }),
{
    let mut nodes: Vec<NetworkNode> = Vec::new();
    let mut index: PositionMap<NetworkNodeId> = PositionMap::new();
    let mut k: usize = 0;
    while k < world.order.len()
        invariant
            world.valid(),
            world.order@.len() <= u32::MAX,
            k <= world.order@.len(),
            nodes@.len() <= k,
            positions_ascending(nodes@.map_values(|node: NetworkNode| node.pos)),
            nodes@.len() > 0 ==> exists|j: int| 0 <= j < k && world.order@[j] == nodes@.last().pos,
            forall|i: int|
                0 <= i < nodes@.len() ==> node_kind_at(world, #[trigger] nodes@[i].pos) is Some && nodes@[i]
                    == node_of_block(world, nodes@[i].pos, i, node_kind_at(world, nodes@[i].pos)->0),
            forall|p: BlockPos| #[trigger] index.has(p) <==> (exists|j: int| 0 <= j < k && #[trigger] world.order@[j] == p)
                && node_kind_at(world, p) is Some,
            forall|p: BlockPos|
                #[trigger] index.has(p) ==> index.at(p).0 < nodes@.len() && nodes@[index.at(p).0 as int].pos == p,
        decreases world.order@.len() - k,
    {
        let pos = world.order[k];
        proof {
            assert(world.order@.contains(pos));
        }
        let info = world.blocks.get(pos).unwrap();
        let kind = if info.known {
            identify_kind(&info.behavior)
        } else {
            None
        };
        match kind {
            Some(kind) => {
                let facing = match info.facing {
                    Some(direction) => direction,
                    None => Direction::North,
                };
                let far = match kind {
                    NetworkNodeKind::Comparator => {
                        let rear = pos.relative(facing);
                        let conducts = match world.blocks.get(rear) {
                            Some(block) => block.known && block.conductor,
                            None => false,
                        };
                        if conducts {
                            Some(rear.relative(facing))
                        } else {
                            None
                        }
                    },
                    _ => None,
                };
                let constant = match kind {
                    NetworkNodeKind::Constant => Some(15u8),
                    _ => None,
                };
                let fast = match kind {
                    NetworkNodeKind::Torch | NetworkNodeKind::Repeater => true,
                    _ => false,
                };
                let id = NetworkNodeId(nodes.len() as u32);
                let node = NetworkNode {
                    id,
                    pos,
                    state: info.state,
                    kind,
                    initial_output: initial_output(info.behavior, info.properties.as_slice(), info.power, info.open_count),
                    constant_output: constant,
                    constant_input: NetworkInputPower::zero(),
                    comparator_far_input: far,
                    fast_input: fast,
                    first_edge: 0,
                    edge_count: 0,
                };
                let ghost before = nodes@;
                let ghost index0 = index;
                proof {
                    assert(node == node_of_block(world, pos, before.len() as int, kind));
                }
                nodes.push(node);
                index.insert(pos, id);
                proof {
                    let ps = nodes@.map_values(|node: NetworkNode| node.pos);
                    let ps0 = before.map_values(|node: NetworkNode| node.pos);
                    assert forall|a: int, b: int| 0 <= a < b < ps.len() implies pos_lt(ps[a], ps[b]) by {
                        assert(ps[a] == nodes@[a].pos);
                        assert(ps[b] == nodes@[b].pos);
                        if b == ps.len() - 1 {
                            assert(nodes@[a] == before[a]);
                            let m = choose|m: int| 0 <= m < k && world.order@[m] == before.last().pos;
                            assert(pos_lt(world.order@[m], world.order@[k as int]));
                            if a < before.len() - 1 {
                                assert(ps0[a] == before[a].pos);
                                assert(ps0[before.len() - 1] == before.last().pos);
                                assert(pos_lt(ps0[a], ps0[before.len() - 1]));
                            }
                        } else {
                            assert(nodes@[a] == before[a]);
                            assert(nodes@[b] == before[b]);
                            assert(ps0[a] == before[a].pos);
                            assert(ps0[b] == before[b].pos);
                        }
                    }
                    assert forall|i: int|
                        0 <= i < nodes@.len() implies node_kind_at(world, #[trigger] nodes@[i].pos) is Some && nodes@[i]
                            == node_of_block(world, nodes@[i].pos, i, node_kind_at(world, nodes@[i].pos)->0) by {
                        if i < before.len() {
                            assert(nodes@[i] == before[i]);
                        }
                    }
                    assert forall|p: BlockPos| #[trigger] index.has(p) <==> (exists|j: int| 0 <= j < k + 1 && #[trigger] world.order@[j] == p)
                        && node_kind_at(world, p) is Some by {
                        lemma_pack_injective(p, pos);
                        if p == pos {
                            assert(world.order@[k as int] == p);
                        }
                        if index0.has(p) {
                            let j = choose|j: int| 0 <= j < k && #[trigger] world.order@[j] == p;
                            assert(world.order@[j] == p);
                        }
                        if exists|j: int| 0 <= j < k + 1 && #[trigger] world.order@[j] == p {
                            let j = choose|j: int| 0 <= j < k + 1 && #[trigger] world.order@[j] == p;
                            if j < k && node_kind_at(world, p) is Some {
                                assert(index0.has(p));
                            }
                        }
                    }
                    assert forall|p: BlockPos| #[trigger] index.has(p) implies index.at(p).0 < nodes@.len() && nodes@[index.at(p).0 as int].pos == p by {
                        lemma_pack_injective(p, pos);
                        if p != pos {
                            assert(index0.has(p));
                            assert(nodes@[index0.at(p).0 as int] == before[index0.at(p).0 as int]);
                        }
                    }
                }
            },
            None => {
                proof {
                    assert(node_kind_at(world, pos) is None);
                    assert forall|p: BlockPos| #[trigger] index.has(p) <==> (exists|j: int| 0 <= j < k + 1 && #[trigger] world.order@[j] == p)
                        && node_kind_at(world, p) is Some by {
                        if index.has(p) {
                            let j = choose|j: int| 0 <= j < k && #[trigger] world.order@[j] == p;
                            assert(world.order@[j] == p);
                        }
                        if (exists|j: int| 0 <= j < k + 1 && #[trigger] world.order@[j] == p) && node_kind_at(world, p) is Some {
                            let j = choose|j: int| 0 <= j < k + 1 && #[trigger] world.order@[j] == p;
                            assert(j != k);
                            assert(exists|j2: int| 0 <= j2 < k && #[trigger] world.order@[j2] == p);
                        }
                    }
                }
            },
        }
        k += 1;
    }
    proof {
        assert forall|p: BlockPos| #[trigger] index.has(p) <==> node_kind_at(world, p) is Some by {
            if node_kind_at(world, p) is Some {
                assert(world.order@.contains(p));
                let j = choose|j: int| 0 <= j < world.order@.len() && world.order@[j] == p;
            }
        }
    }
    (nodes, index)
}

} // verus!
