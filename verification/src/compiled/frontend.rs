//! The node kinds of the compiled graph and the topology signature that
//! tells a shape change from a mere state change.

use vstd::prelude::*;

use crate::position::BlockKindId;
use crate::compiled::network::{spec_identify_kind, NetworkNodeKind};
use crate::registry::BlockBehavior;
use crate::text::{bytes, name_is};

verus! {

/// The role of a block in the compiled graph.
#[derive(Clone, Copy, Debug, PartialEq, Eq, Hash, Structural)]
pub enum NodeKind {
    ConstantSource,
    Wire,
    Torch,
    Repeater,
    Comparator,
    Lever,
    Button,
    PressurePlate,
    SignalSource,
    Boundary,
}

/// What must stay the same for a block change to leave the graph's shape:
/// the block kind, its role, whether it conducts, and a hash of its shape
/// properties.
#[derive(Clone, Copy, Debug, PartialEq, Eq, Structural)]
pub struct TopologySignature {
    pub kind: BlockKindId,
    pub node_kind: NodeKind,
    pub conductor: bool,
    pub shape_hash: u64,
}

/// The role of a block with behaviour `behavior`, conducting or not; none
/// for air and for non-conducting static blocks.
pub open spec fn spec_classify(behavior: BlockBehavior, conductor: bool) -> Option<NodeKind> {
    match behavior {
        BlockBehavior::Air => None,
        BlockBehavior::Static => if conductor {
            Some(NodeKind::Boundary)
        } else {
            None
        },
        BlockBehavior::RedstoneBlock => Some(NodeKind::ConstantSource),
        BlockBehavior::Wire => Some(NodeKind::Wire),
        BlockBehavior::Torch { .. } => Some(NodeKind::Torch),
        BlockBehavior::Repeater => Some(NodeKind::Repeater),
        BlockBehavior::Comparator => Some(NodeKind::Comparator),
        BlockBehavior::Lever => Some(NodeKind::Lever),
        BlockBehavior::Button { .. } => Some(NodeKind::Button),
        BlockBehavior::PressurePlate { .. } => Some(NodeKind::PressurePlate),
        BlockBehavior::Observer | BlockBehavior::Target | BlockBehavior::TripwireHook
        | BlockBehavior::DetectorRail | BlockBehavior::DaylightDetector | BlockBehavior::Lectern
        | BlockBehavior::TrappedChest => Some(NodeKind::SignalSource),
        _ => Some(NodeKind::Boundary),
    }
}

/// The role of a block with behaviour `behavior`, conducting or not.
pub fn classify(behavior: &BlockBehavior, conductor: bool) -> (kind: Option<NodeKind>)
    ensures
        kind == spec_classify(*behavior, conductor),
{
    match behavior {
        BlockBehavior::Air => None,
        BlockBehavior::Static => if conductor {
            Some(NodeKind::Boundary)
        } else {
            None
        },
        BlockBehavior::RedstoneBlock => Some(NodeKind::ConstantSource),
        BlockBehavior::Wire => Some(NodeKind::Wire),
        BlockBehavior::Torch { .. } => Some(NodeKind::Torch),
        BlockBehavior::Repeater => Some(NodeKind::Repeater),
        BlockBehavior::Comparator => Some(NodeKind::Comparator),
        BlockBehavior::Lever => Some(NodeKind::Lever),
        BlockBehavior::Button { .. } => Some(NodeKind::Button),
        BlockBehavior::PressurePlate { .. } => Some(NodeKind::PressurePlate),
        BlockBehavior::Observer | BlockBehavior::Target | BlockBehavior::TripwireHook
        | BlockBehavior::DetectorRail | BlockBehavior::DaylightDetector | BlockBehavior::Lectern
        | BlockBehavior::TrappedChest => Some(NodeKind::SignalSource),
        _ => Some(NodeKind::Boundary),
    }
}

/// The topology signature of a block: its role is its classification, or a
/// boundary for a piston part; a boundary that is no piston part hashes its
/// shape as zero. None for a block with no role.
pub open spec fn spec_topology_signature(
    kind: BlockKindId,
    behavior: BlockBehavior,
    conductor: bool,
    piston_part: bool,
    shape_hash: u64,
) -> Option<TopologySignature> {
    let piston_boundary = behavior is Piston || piston_part;
    let role = match spec_classify(behavior, conductor) {
        Some(role) => Some(role),
        None => if piston_boundary {
            Some(NodeKind::Boundary)
        } else {
            None
        },
    };
    match role {
        Some(role) => Some(
            TopologySignature {
                kind,
                node_kind: role,
                conductor,
                shape_hash: if role == NodeKind::Boundary && !piston_boundary {
                    0
                } else {
                    shape_hash
                },
            },
        ),
        None => None,
    }
}

/// The topology signature of a block of kind `kind`, behaviour `behavior`,
/// conducting or not, that is or is not a moving piston or piston head,
/// with shape hash `shape_hash`.
pub fn topology_signature(
    kind: BlockKindId,
    behavior: &BlockBehavior,
    conductor: bool,
    piston_part: bool,
    shape_hash: u64,
) -> (signature: Option<TopologySignature>)
    ensures
        signature == spec_topology_signature(kind, *behavior, conductor, piston_part, shape_hash),
{
    let piston_boundary = match behavior {
        BlockBehavior::Piston { .. } => true,
        _ => piston_part,
    };
    let role = match classify(behavior, conductor) {
        Some(role) => role,
        None => {
            if piston_boundary {
                NodeKind::Boundary
            } else {
                return None;
            }
        },
    };
    let hash = if role == NodeKind::Boundary && !piston_boundary {
        0
    } else {
        shape_hash
    };
    Some(TopologySignature { kind, node_kind: role, conductor, shape_hash: hash })
}

/// The FNV-1a step of the shape hash over one byte.
pub open spec fn fnv_step(hash: u64, byte: u8) -> u64 {
    (hash ^ (byte as u64)).wrapping_mul(0x100_0000_01b3u64)
}

/// The shape hash after the bytes of `data`, starting from `hash`.
pub open spec fn fnv_bytes(hash: u64, data: Seq<u8>) -> u64
    decreases data.len(),
{
    if data.len() == 0 {
        hash
    } else {
        fnv_step(fnv_bytes(hash, data.drop_last()), data.last())
    }
}

/// Hashing `a` then `b` is hashing them joined.
proof fn lemma_fnv_concat(hash: u64, a: Seq<u8>, b: Seq<u8>)
    ensures
        fnv_bytes(hash, a + b) == fnv_bytes(fnv_bytes(hash, a), b),
    decreases b.len(),
{
    if b.len() == 0 {
        assert(a + b =~= a);
    } else {
        lemma_fnv_concat(hash, a, b.drop_last());
        assert((a + b).drop_last() =~= a + b.drop_last());
    }
}

/// Hashing one byte is one step.
proof fn lemma_fnv_single(hash: u64, byte: u8)
    ensures
        fnv_bytes(hash, seq![byte]) == fnv_step(hash, byte),
{
    assert(seq![byte].drop_last() =~= Seq::<u8>::empty());
    assert(seq![byte].last() == byte);
    reveal_with_fuel(fnv_bytes, 2);
}

/// Hashes `data` into `hash`, byte by byte.
fn fnv_extend(hash: u64, data: &[u8]) -> (result: u64)
    ensures
        result == fnv_bytes(hash, data@),
{
    let mut h = hash;
    let mut k: usize = 0;
    while k < data.len()
        invariant
            k <= data@.len(),
            h == fnv_bytes(hash, data@.take(k as int)),
        decreases data@.len() - k,
    {
        proof {
            assert(data@.take(k + 1).drop_last() =~= data@.take(k as int));
        }
        h = (h ^ (data[k] as u64)).wrapping_mul(0x100_0000_01b3u64);
        k += 1;
    }
    proof {
        assert(data@.take(data@.len() as int) =~= data@);
    }
    h
}

/// Whether a property says only how powered a block is, and so stays out of
/// its shape.
pub open spec fn power_property(name: Seq<u8>) -> bool {
    name == bytes("power") || name == bytes("powered") || name == bytes("lit") || name == bytes("locked")
        || name == bytes("enabled") || name == bytes("triggered")
}

/// The bytes one property adds to the shape hash: its name, a zero byte, its
/// value and a 0xff byte.
pub open spec fn property_record(name: Seq<u8>, value: Seq<u8>) -> Seq<u8> {
    name + seq![0u8] + value + seq![0xffu8]
}

/// The shape hash over the first properties, from `hash`.
pub open spec fn shape_hash_from(hash: u64, properties: Seq<(&str, &str)>) -> u64
    decreases properties.len(),
{
    if properties.len() == 0 {
        hash
    } else {
        let before = shape_hash_from(hash, properties.drop_last());
        let (name, value) = properties.last();
        if power_property(bytes(name)) {
            before
        } else {
            fnv_bytes(before, property_record(bytes(name), bytes(value)))
        }
    }
}

/// The FNV-1a offset basis the shape hash starts from.
pub open spec fn fnv_basis() -> u64 {
    0xcbf2_9ce4_8422_2325u64
}

/// The shape hash of a block state: FNV-1a over its properties in the order
/// given (by name, for a state's property map), each property but those of
/// power contributing its record.
pub fn shape_hash(properties: &[(&str, &str)]) -> (hash: u64)
    ensures
        hash == shape_hash_from(fnv_basis(), properties@),
{
    let mut hash: u64 = 0xcbf2_9ce4_8422_2325u64;
    let mut k: usize = 0;
    while k < properties.len()
        invariant
            k <= properties@.len(),
            hash == shape_hash_from(fnv_basis(), properties@.take(k as int)),
        decreases properties@.len() - k,
    {
        let (name, value) = properties[k];
        let ghost taken = properties@.take(k + 1);
        proof {
            assert(taken.drop_last() =~= properties@.take(k as int));
            assert(taken.last() == (name, value));
        }
        let n = name.as_bytes();
        let ignored = name_is(n, "power") || name_is(n, "powered") || name_is(n, "lit") || name_is(n, "locked")
            || name_is(n, "enabled") || name_is(n, "triggered");
        if !ignored {
            let ghost start = hash;
            hash = fnv_extend(hash, n);
            hash = (hash ^ 0u64).wrapping_mul(0x100_0000_01b3u64);
            hash = fnv_extend(hash, value.as_bytes());
            hash = (hash ^ 0xffu64).wrapping_mul(0x100_0000_01b3u64);
            proof {
                let nb = bytes(name);
                let vb = bytes(value);
                lemma_fnv_concat(start, nb, seq![0u8]);
                lemma_fnv_single(fnv_bytes(start, nb), 0u8);
                lemma_fnv_concat(start, nb + seq![0u8], vb);
                lemma_fnv_concat(start, nb + seq![0u8] + vb, seq![0xffu8]);
                lemma_fnv_single(fnv_bytes(start, nb + seq![0u8] + vb), 0xffu8);
            }
        }
        k += 1;
    }
    proof {
        assert(properties@.take(properties@.len() as int) =~= properties@);
    }
    hash
}


/// The role in the compiled graph of a node kind of the dense network.
pub open spec fn graph_role(kind: NetworkNodeKind) -> NodeKind {
    match kind {
        NetworkNodeKind::Constant => NodeKind::ConstantSource,
        NetworkNodeKind::Torch => NodeKind::Torch,
        NetworkNodeKind::Repeater => NodeKind::Repeater,
        NetworkNodeKind::Comparator => NodeKind::Comparator,
        NetworkNodeKind::Lever => NodeKind::Lever,
        NetworkNodeKind::Button => NodeKind::Button,
        NetworkNodeKind::PressurePlate => NodeKind::PressurePlate,
        NetworkNodeKind::Target | NetworkNodeKind::DynamicSource => NodeKind::SignalSource,
        NetworkNodeKind::Consumer => NodeKind::Boundary,
    }
}

/// The compiled graph and the dense network agree on every block that the
/// network takes as a node, conducting or not: a constant source, torch,
/// repeater, comparator, lever, button or pressure plate keeps its role, a
/// target or any other block that puts out a signal of its own (observer,
/// tripwire hook, detector rail, daylight detector, lectern, trapped chest)
/// is a signal source, and a consumer is a boundary. The signal sources of
/// the graph are exactly the network's targets and other signal blocks.
pub proof fn law_roles_match_network_nodes(behavior: BlockBehavior, conductor: bool)
    ensures
        spec_identify_kind(behavior) matches Some(kind) ==> spec_classify(behavior, conductor) == Some(graph_role(kind)),
        spec_classify(behavior, conductor) == Some(NodeKind::SignalSource) <==> (spec_identify_kind(behavior) == Some(
            NetworkNodeKind::Target,
        ) || spec_identify_kind(behavior) == Some(NetworkNodeKind::DynamicSource)),
{
}


/// Only air and non-conducting plain blocks have no role in the compiled
/// graph; a wire, and only a wire, is a wire node; and whether a block
/// conducts changes the role of a plain block alone.
pub proof fn law_roles_of_plain_blocks(behavior: BlockBehavior, conductor: bool)
    ensures
        spec_classify(behavior, conductor) is None <==> (behavior == BlockBehavior::Air || (behavior
            == BlockBehavior::Static && !conductor)),
        spec_classify(behavior, conductor) == Some(NodeKind::Wire) <==> behavior == BlockBehavior::Wire,
        behavior != BlockBehavior::Static ==> spec_classify(behavior, true) == spec_classify(behavior, false),
        behavior == BlockBehavior::Static && conductor ==> spec_classify(behavior, conductor) == Some(NodeKind::Boundary),
{
}

} // verus!
