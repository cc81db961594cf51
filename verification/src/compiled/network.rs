//! The dense redstone network: signal nodes, redstone wires, their
//! compressed sparse row adjacency and the consistency checks of both.

use vstd::prelude::*;

use crate::compiled::csr::{csr_is_valid, csr_range, csr_ranges_in_bounds, csr_slice, csr_valid, lemma_csr_valid_in_bounds};
use crate::position::{BlockPos, BlockStateId};
use crate::posmap::PositionMap;
use crate::registry::BlockBehavior;

verus! {

/// Signal strength is lost one level per wire; this many steps exhaust it.
pub const MAX_WIRE_ATTENUATION: u8 = 15;

/// The flag bit that marks a wire reference inside a packed input port.
pub const WIRE_BIT: u32 = 0x8000_0000;

/// The flag bit that marks a boundary reference inside an ordered target.
pub const BOUNDARY_BIT: u32 = 0x8000_0000;

/// The index of a signal node of the network.
#[derive(Clone, Copy, Debug, PartialEq, Eq, Structural, Hash)]
pub struct NetworkNodeId(pub u32);

impl NetworkNodeId {
    /// The position of the node in the node table.
    pub fn index(self) -> (index: usize)
        ensures
            index == self.0,
    {
        self.0 as usize
    }
}

/// The index of a redstone wire of the network.
#[derive(Clone, Copy, Debug, PartialEq, Eq, Structural, Hash)]
pub struct NetworkWireId(pub u32);

impl NetworkWireId {
    /// The position of the wire in the wire table.
    pub fn index(self) -> (index: usize)
        ensures
            index == self.0,
    {
        self.0 as usize
    }
}

/// Which input of a node a signal feeds.
#[derive(Clone, Copy, Debug, PartialEq, Eq, Structural, Hash)]
pub enum NetworkInputKind {
    Default,
    Side,
}

/// The strongest signal at the default input and at the side inputs of a node.
#[derive(Clone, Copy, Debug, PartialEq, Eq, Structural)]
pub struct NetworkInputPower {
    pub default: u8,
    pub side: u8,
}

impl NetworkInputPower {
    /// No signal at either input.
    pub fn zero() -> (power: NetworkInputPower)
        ensures
            power == (NetworkInputPower { default: 0, side: 0 }),
    {
        NetworkInputPower { default: 0, side: 0 }
    }
}

/// An input of a node: either a node read directly, with an attenuation,
/// or a wire, whose power is read as it stands. The wire flag is the top bit.
#[derive(Clone, Copy, Debug, PartialEq, Eq, Structural)]
pub struct NetworkInputPort {
    pub source: u32,
    pub kind: NetworkInputKind,
    pub attenuation: u8,
}

/// Whether a packed reference carries the top flag bit.
pub open spec fn flagged(value: u32) -> bool {
    value >= 0x8000_0000
}

/// A packed reference without its top flag bit.
pub open spec fn unflagged(value: u32) -> u32 {
    if value >= 0x8000_0000 {
        (value - 0x8000_0000) as u32
    } else {
        value
    }
}

proof fn lemma_flag_bits(value: u32)
    ensures
        (value & 0x8000_0000u32 == 0) == !flagged(value),
        value & !0x8000_0000u32 == unflagged(value),
        flagged(0x8000_0000u32 | value),
        value < 0x8000_0000 ==> unflagged(0x8000_0000u32 | value) == value,
{
    assert((value & 0x8000_0000u32 == 0) == (value < 0x8000_0000u32)) by (bit_vector);
    assert(value & !0x8000_0000u32 == (if value >= 0x8000_0000u32 {
        (value - 0x8000_0000u32) as u32
    } else {
        value
    })) by (bit_vector);
    assert(0x8000_0000u32 | value >= 0x8000_0000u32) by (bit_vector);
    assert(value < 0x8000_0000u32 ==> (0x8000_0000u32 | value) - 0x8000_0000u32 == value)
        by (bit_vector);
}

impl NetworkInputPort {
    /// A port that reads node `source` with `attenuation` levels lost.
    pub fn node(source: NetworkNodeId, kind: NetworkInputKind, attenuation: u8) -> (port:
        NetworkInputPort)
        ensures
            port == (NetworkInputPort { source: source.0, kind, attenuation }),
    {
        NetworkInputPort { source: source.0, kind, attenuation }
    }

    /// A port that reads the power of wire `source`.
    pub fn wire(source: NetworkWireId, kind: NetworkInputKind) -> (port: NetworkInputPort)
        ensures
            port.source == (0x8000_0000u32 | source.0),
            port.kind == kind,
            port.attenuation == 0,
    {
        NetworkInputPort { source: WIRE_BIT | source.0, kind, attenuation: 0 }
    }

    /// The node that the port reads, if it reads a node.
    pub fn node_id(self) -> (id: Option<NetworkNodeId>)
        ensures
            id == (if flagged(self.source) {
                None
            } else {
                Some(NetworkNodeId(self.source))
            }),
    {
        proof {
            lemma_flag_bits(self.source);
        }
        if self.source & WIRE_BIT == 0 {
            Some(NetworkNodeId(self.source))
        } else {
            None
        }
    }

    /// The wire that the port reads, if it reads a wire.
    pub fn wire_id(self) -> (id: Option<NetworkWireId>)
        ensures
            id == (if flagged(self.source) {
                Some(NetworkWireId(unflagged(self.source)))
            } else {
                None
            }),
    {
        proof {
            lemma_flag_bits(self.source);
        }
        if self.source & WIRE_BIT == 0 {
            None
        } else {
            Some(NetworkWireId(self.source & !WIRE_BIT))
        }
    }
}

/// A packed port gives back the node or the wire it was made from, for
/// indices below the flag bit.
pub proof fn law_input_port_round_trip(node: NetworkNodeId, wire: NetworkWireId, kind:
    NetworkInputKind, attenuation: u8)
    requires
        node.0 < 0x8000_0000,
        wire.0 < 0x8000_0000,
    ensures
        !flagged(node.0),
        flagged(0x8000_0000u32 | wire.0),
        unflagged(0x8000_0000u32 | wire.0) == wire.0,
{
    lemma_flag_bits(wire.0);
}

/// The behaviour class of a network node.
#[derive(Clone, Copy, Debug, PartialEq, Eq, Structural)]
pub enum NetworkNodeKind {
    Constant,
    Torch,
    Repeater,
    Comparator,
    Lever,
    Button,
    PressurePlate,
    Target,
    DynamicSource,
    Consumer,
}

/// The node kind of a block behaviour, for the behaviours that the network models.
pub open spec fn spec_identify_kind(behavior: BlockBehavior) -> Option<NetworkNodeKind> {
    match behavior {
        BlockBehavior::RedstoneBlock => Some(NetworkNodeKind::Constant),
        BlockBehavior::Torch { .. } => Some(NetworkNodeKind::Torch),
        BlockBehavior::Repeater => Some(NetworkNodeKind::Repeater),
        BlockBehavior::Comparator => Some(NetworkNodeKind::Comparator),
        BlockBehavior::Lever => Some(NetworkNodeKind::Lever),
        BlockBehavior::Button { .. } => Some(NetworkNodeKind::Button),
        BlockBehavior::PressurePlate { .. } => Some(NetworkNodeKind::PressurePlate),
        BlockBehavior::Target => Some(NetworkNodeKind::Target),
        BlockBehavior::Observer | BlockBehavior::TripwireHook | BlockBehavior::DetectorRail
        | BlockBehavior::DaylightDetector | BlockBehavior::Lectern
        | BlockBehavior::TrappedChest => Some(NetworkNodeKind::DynamicSource),
        BlockBehavior::Lamp | BlockBehavior::PoweredConsumer => Some(NetworkNodeKind::Consumer),
        _ => None,
    }
}

/// The node kind of a block behaviour, for the behaviours that the network models.
pub fn identify_kind(behavior: &BlockBehavior) -> (kind: Option<NetworkNodeKind>)
    ensures
        kind == spec_identify_kind(*behavior),
{
    match behavior {
        BlockBehavior::RedstoneBlock => Some(NetworkNodeKind::Constant),
        BlockBehavior::Torch { .. } => Some(NetworkNodeKind::Torch),
        BlockBehavior::Repeater => Some(NetworkNodeKind::Repeater),
        BlockBehavior::Comparator => Some(NetworkNodeKind::Comparator),
        BlockBehavior::Lever => Some(NetworkNodeKind::Lever),
        BlockBehavior::Button { .. } => Some(NetworkNodeKind::Button),
        BlockBehavior::PressurePlate { .. } => Some(NetworkNodeKind::PressurePlate),
        BlockBehavior::Target => Some(NetworkNodeKind::Target),
        BlockBehavior::Observer | BlockBehavior::TripwireHook | BlockBehavior::DetectorRail
        | BlockBehavior::DaylightDetector | BlockBehavior::Lectern
        | BlockBehavior::TrappedChest => Some(NetworkNodeKind::DynamicSource),
        BlockBehavior::Lamp | BlockBehavior::PoweredConsumer => Some(NetworkNodeKind::Consumer),
        _ => None,
    }
}

/// Whether nodes of a kind emit a signal: every kind but the consumers.
pub open spec fn spec_is_signal_source(kind: NetworkNodeKind) -> bool {
    kind != NetworkNodeKind::Consumer
}

/// Whether nodes of a kind emit a signal: every kind but the consumers.
pub fn is_signal_source(kind: NetworkNodeKind) -> (result: bool)
    ensures
        result == spec_is_signal_source(kind),
{
    match kind {
        NetworkNodeKind::Constant | NetworkNodeKind::Torch | NetworkNodeKind::Repeater
        | NetworkNodeKind::Comparator | NetworkNodeKind::Lever | NetworkNodeKind::Button
        | NetworkNodeKind::PressurePlate | NetworkNodeKind::Target
        | NetworkNodeKind::DynamicSource => true,
        NetworkNodeKind::Consumer => false,
    }
}

/// A signal node: its block, its kind, its outputs and inputs at build time,
/// and its range in the edge table.
#[derive(Clone, Copy, Debug)]
pub struct NetworkNode {
    pub id: NetworkNodeId,
    pub pos: BlockPos,
    pub state: BlockStateId,
    pub kind: NetworkNodeKind,
    pub initial_output: u8,
    pub constant_output: Option<u8>,
    pub constant_input: NetworkInputPower,
    pub comparator_far_input: Option<BlockPos>,
    pub fast_input: bool,
    pub first_edge: u32,
    pub edge_count: u32,
}

impl NetworkNode {
    /// A node with no edges yet.
    pub fn new(
        id: NetworkNodeId,
        pos: BlockPos,
        state: BlockStateId,
        kind: NetworkNodeKind,
        initial_output: u8,
        constant_output: Option<u8>,
        constant_input: NetworkInputPower,
        comparator_far_input: Option<BlockPos>,
        fast_input: bool,
    ) -> (node: NetworkNode)
        ensures
            node.id == id,
            node.pos == pos,
            node.state == state,
            node.kind == kind,
            node.initial_output == initial_output,
            node.constant_output == constant_output,
            node.constant_input == constant_input,
            node.comparator_far_input == comparator_far_input,
            node.fast_input == fast_input,
            node.first_edge == 0,
            node.edge_count == 0,
    {
        NetworkNode {
            id,
            pos,
            state,
            kind,
            initial_output,
            constant_output,
            constant_input,
            comparator_far_input,
            fast_input,
            first_edge: 0,
            edge_count: 0,
        }
    }

}

/// A redstone wire of the network.
#[derive(Clone, Copy, Debug, PartialEq, Eq, Structural)]
pub struct NetworkWire {
    pub id: NetworkWireId,
    pub pos: BlockPos,
    pub state: BlockStateId,
    pub initial_power: u8,
}

/// A signal path from a source node to a target node, through wires when
/// both wire ends are given.
#[derive(Clone, Copy, Debug, PartialEq, Eq, Structural)]
pub struct NetworkEdge {
    pub source: NetworkNodeId,
    pub target: NetworkNodeId,
    pub kind: NetworkInputKind,
    pub attenuation: u8,
    pub source_wire: Option<NetworkWireId>,
    pub target_wire: Option<NetworkWireId>,
}

/// A node that powers a wire directly.
#[derive(Clone, Copy, Debug, PartialEq, Eq, Structural)]
pub struct NetworkWireSource {
    pub source: NetworkNodeId,
}

/// A node input that reads a wire.
#[derive(Clone, Copy, Debug, PartialEq, Eq, Structural)]
pub struct NetworkWireTarget {
    pub target: NetworkNodeId,
    pub kind: NetworkInputKind,
}

/// An entry of a wire's ordered update list: another wire, or a boundary
/// block, packed with the boundary flag in the top bit.
#[derive(Clone, Copy, Debug, PartialEq, Eq, Structural)]
pub struct OrderedWireTarget(pub u32);

impl OrderedWireTarget {
    /// The entry for a wire.
    pub fn wire(wire: NetworkWireId) -> (target: OrderedWireTarget)
        ensures
            target == OrderedWireTarget(wire.0),
    {
        OrderedWireTarget(wire.0)
    }

    /// The entry for a boundary block.
    pub fn boundary(index: u32) -> (target: OrderedWireTarget)
        ensures
            target == OrderedWireTarget(0x8000_0000u32 | index),
    {
        OrderedWireTarget(BOUNDARY_BIT | index)
    }

    /// The wire of the entry, if it names a wire.
    pub fn wire_id(self) -> (wire: Option<NetworkWireId>)
        ensures
            wire == (if flagged(self.0) {
                None
            } else {
                Some(NetworkWireId(self.0))
            }),
    {
        proof {
            lemma_flag_bits(self.0);
        }
        if self.0 & BOUNDARY_BIT == 0 {
            Some(NetworkWireId(self.0))
        } else {
            None
        }
    }

    /// The boundary of the entry, if it names a boundary block.
    pub fn boundary_index(self) -> (index: Option<usize>)
        ensures
            index == (if flagged(self.0) {
                Some(unflagged(self.0) as usize)
            } else {
                None
            }),
    {
        proof {
            lemma_flag_bits(self.0);
        }
        if self.0 & BOUNDARY_BIT == 0 {
            None
        } else {
            Some((self.0 & !BOUNDARY_BIT) as usize)
        }
    }
}

/// An ordered entry gives back the wire or the boundary it was made from,
/// for indices below the flag bit.
pub proof fn law_ordered_target_round_trip(wire: NetworkWireId, boundary: u32)
    requires
        wire.0 < 0x8000_0000,
        boundary < 0x8000_0000,
    ensures
        !flagged(wire.0),
        flagged(0x8000_0000u32 | boundary),
        unflagged(0x8000_0000u32 | boundary) == boundary,
{
    lemma_flag_bits(boundary);
}

/// A block outside the wires that a wire update reaches, the wire-side
/// position it is reached from, and the fast-input node at it, if any.
#[derive(Clone, Copy, Debug, PartialEq, Eq, Structural)]
pub struct OrderedBoundaryTarget {
    pub pos: BlockPos,
    pub source_pos: BlockPos,
    pub fast_input_node: Option<NetworkNodeId>,
}

/// Counters of the work done while building a network.
#[derive(Clone, Copy, Debug, PartialEq, Eq, Structural)]
pub struct NetworkBuildStats {
    pub wire_neighbor_scans: usize,
    pub wire_neighbor_entries: usize,
    pub wire_source_ports: usize,
    pub wire_target_ports: usize,
    pub semantic_wire_searches: usize,
    pub semantic_wire_visits: usize,
}

impl NetworkBuildStats {
    /// All counters at zero.
    pub fn zero() -> (stats: NetworkBuildStats)
        ensures
            stats == (NetworkBuildStats {
                wire_neighbor_scans: 0,
                wire_neighbor_entries: 0,
                wire_source_ports: 0,
                wire_target_ports: 0,
                semantic_wire_searches: 0,
                semantic_wire_visits: 0,
            }),
    {
        NetworkBuildStats {
            wire_neighbor_scans: 0,
            wire_neighbor_entries: 0,
            wire_source_ports: 0,
            wire_target_ports: 0,
            semantic_wire_searches: 0,
            semantic_wire_visits: 0,
        }
    }
}

} // verus!
