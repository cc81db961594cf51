//! The dense wire graph: one slot per redstone wire, with compressed sparse
//! row tables of the wires each wire powers, the wires powering it, its
//! source nodes, its target nodes, its ordered update list and its observers.

use vstd::prelude::*;

use crate::compiled::csr::{csr_is_valid, csr_range, csr_ranges_in_bounds, csr_slice, csr_valid, lemma_csr_valid_in_bounds};
use crate::compiled::network::{
    flagged, unflagged, NetworkWire, NetworkWireId, NetworkWireSource, NetworkWireTarget,
    OrderedBoundaryTarget, OrderedWireTarget,
};
use crate::compiled::draft_order::sort_keys;
use crate::position::{spec_relative, BlockPos, BlockStateId, Direction};
use crate::posmap::PositionMap;

verus! {

/// The table of a dense wire graph that failed a consistency check.
#[derive(Clone, Copy, Debug, PartialEq, Eq, Structural)]
pub enum WireTable {
    Dependent,
    Predecessor,
    Source,
    Target,
    OrderedTarget,
    Observer,
}

/// Why a dense wire graph is inconsistent.
#[derive(Clone, Copy, Debug, PartialEq, Eq, Structural)]
pub enum WireGraphError {
    /// The per-wire columns or the position index differ in length.
    ColumnSizeMismatch,
    /// An ordered entry names a wire past the end of the wire table.
    StaleOrderedWire,
    /// An ordered entry names a boundary past the end of the boundary table.
    StaleOrderedBoundary,
    /// An offset table does not fit its values.
    CsrMismatch(WireTable),
    /// The dependent and predecessor tables hold different numbers of entries.
    DirectionSizeMismatch,
    /// The position index does not send a wire's position to the wire.
    PositionIndexMismatch(BlockPos),
    /// A dependent range is not strictly increasing.
    DependentsNotUnique(BlockPos),
    /// A dependent names a wire past the end of the wire table.
    StaleDependent(BlockPos),
    /// A wire has more predecessors than a power bucket can count.
    PredecessorCapacityExceeded(BlockPos),
    /// A predecessor range is not strictly increasing.
    PredecessorsNotUnique(BlockPos),
    /// A predecessor names a wire past the end of the wire table.
    StalePredecessor(BlockPos),
}

/// The dense wire graph.
#[derive(Debug)]
pub struct DenseWireGraph {
    pub positions: Vec<BlockPos>,
    pub states: Vec<BlockStateId>,
    pub initial_power: Vec<u8>,
    pub position_index: PositionMap<NetworkWireId>,
    pub dependent_offsets: Vec<u32>,
    pub dependents: Vec<NetworkWireId>,
    pub predecessor_offsets: Vec<u32>,
    pub predecessors: Vec<NetworkWireId>,
    pub source_offsets: Vec<u32>,
    pub sources: Vec<NetworkWireSource>,
    pub target_offsets: Vec<u32>,
    pub targets: Vec<NetworkWireTarget>,
    pub ordered_target_offsets: Vec<u32>,
    pub ordered_targets: Vec<OrderedWireTarget>,
    pub ordered_boundaries: Vec<OrderedBoundaryTarget>,
    pub observer_offsets: Vec<u32>,
    pub observers: Vec<BlockPos>,
    pub source_anchors: PositionMap<Vec<NetworkWireId>>,
}

/// Whether a range of wire ids is strictly increasing and names only wires below `len`.
pub open spec fn unique_wires_below(ids: Seq<NetworkWireId>, len: int) -> bool {
    &&& forall|a: int, b: int| 0 <= a < b < ids.len() ==> ids[a].0 < ids[b].0
    &&& forall|a: int| 0 <= a < ids.len() ==> ids[a].0 < len
}

/// Whether a range of wire ids is strictly increasing.
fn strictly_increasing(ids: &[NetworkWireId]) -> (result: bool)
    ensures
        result == (forall|a: int, b: int| 0 <= a < b < ids@.len() ==> ids@[a].0 < ids@[b].0),
{
    if ids.len() < 2 {
        return true;
    }
    let mut k: usize = 0;
    while k < ids.len() - 1
        invariant
            ids@.len() >= 2,
            k + 1 <= ids@.len(),
            forall|a: int, b: int| 0 <= a < b <= k ==> ids@[a].0 < ids@[b].0,
        decreases ids@.len() - k,
    {
        if ids[k].0 >= ids[k + 1].0 {
            return false;
        }
        k += 1;
    }
    true
}

/// Whether every id of a range names a wire below `len`.
fn all_below(ids: &[NetworkWireId], len: usize) -> (result: bool)
    ensures
        result == (forall|a: int| 0 <= a < ids@.len() ==> ids@[a].0 < len),
{
    let mut k: usize = 0;
    while k < ids.len()
        invariant
            k <= ids@.len(),
            forall|a: int| 0 <= a < k ==> ids@[a].0 < len,
        decreases ids@.len() - k,
    {
        if ids[k].0 as usize >= len {
            return false;
        }
        k += 1;
    }
    true
}

impl DenseWireGraph {
    /// The number of wires.
    pub open spec fn count(&self) -> int {
        self.positions@.len() as int
    }

    /// The wires powered by wire `index`.
    pub open spec fn dependents_of(&self, index: int) -> Seq<NetworkWireId> {
        csr_slice(self.dependent_offsets@, self.dependents@, index)
    }

    /// The wires powering wire `index`.
    pub open spec fn predecessors_of(&self, index: int) -> Seq<NetworkWireId> {
        csr_slice(self.predecessor_offsets@, self.predecessors@, index)
    }

    /// The nodes powering wire `index` directly.
    pub open spec fn sources_of(&self, index: int) -> Seq<NetworkWireSource> {
        csr_slice(self.source_offsets@, self.sources@, index)
    }

    /// The node inputs reading wire `index`.
    pub open spec fn targets_of(&self, index: int) -> Seq<NetworkWireTarget> {
        csr_slice(self.target_offsets@, self.targets@, index)
    }

    /// The ordered update list of wire `index`.
    pub open spec fn ordered_targets_of(&self, index: int) -> Seq<OrderedWireTarget> {
        csr_slice(self.ordered_target_offsets@, self.ordered_targets@, index)
    }

    /// Whether every ordered entry names an existing wire or boundary.
    pub open spec fn ordered_entries_valid(&self) -> bool {
        forall|k: int|
            0 <= k < self.ordered_targets@.len() ==> {
                let target = #[trigger] self.ordered_targets@[k];
                if flagged(target.0) {
                    unflagged(target.0) < self.ordered_boundaries@.len()
                } else {
                    target.0 < self.count()
                }
            }
    }

    /// Whether the per-wire entries of wire `index` are consistent.
    pub open spec fn wire_entry_valid(&self, index: int) -> bool {
        &&& self.position_index.has(self.positions@[index])
        &&& self.position_index.at(self.positions@[index]) == NetworkWireId(index as u32)
        &&& unique_wires_below(self.dependents_of(index), self.count())
        &&& self.predecessors_of(index).len() <= 255
        &&& unique_wires_below(self.predecessors_of(index), self.count())
    }

    /// Everything that `validate` checks.
    pub open spec fn well_formed(&self) -> bool {
        let n = self.count();
        &&& self.states@.len() == n
        &&& self.initial_power@.len() == n
        &&& self.position_index.size() == n
        &&& csr_valid(self.dependent_offsets@, n, self.dependents@.len() as int)
        &&& self.ordered_entries_valid()
        &&& csr_valid(self.predecessor_offsets@, n, self.predecessors@.len() as int)
        &&& csr_valid(self.source_offsets@, n, self.sources@.len() as int)
        &&& csr_valid(self.target_offsets@, n, self.targets@.len() as int)
        &&& csr_valid(self.ordered_target_offsets@, n, self.ordered_targets@.len() as int)
        &&& csr_valid(self.observer_offsets@, n, self.observers@.len() as int)
        &&& self.dependents@.len() == self.predecessors@.len()
        &&& forall|i: int| 0 <= i < n ==> #[trigger] self.wire_entry_valid(i)
    }

    /// Whether every offset table names ranges inside its values, as reads need.
    pub open spec fn tables_in_bounds(&self) -> bool {
        &&& csr_ranges_in_bounds(self.dependent_offsets@, self.dependents@.len() as int)
        &&& csr_ranges_in_bounds(self.predecessor_offsets@, self.predecessors@.len() as int)
        &&& csr_ranges_in_bounds(self.source_offsets@, self.sources@.len() as int)
        &&& csr_ranges_in_bounds(self.target_offsets@, self.targets@.len() as int)
        &&& csr_ranges_in_bounds(self.ordered_target_offsets@, self.ordered_targets@.len() as int)
        &&& csr_ranges_in_bounds(self.observer_offsets@, self.observers@.len() as int)
    }

    /// A consistent graph has its offset tables in bounds.
    pub proof fn lemma_well_formed_in_bounds(&self)
        requires
            self.well_formed(),
        ensures
            self.tables_in_bounds(),
    {
        let n = self.count();
        lemma_csr_valid_in_bounds(self.dependent_offsets@, n, self.dependents@.len() as int);
        lemma_csr_valid_in_bounds(self.predecessor_offsets@, n, self.predecessors@.len() as int);
        lemma_csr_valid_in_bounds(self.source_offsets@, n, self.sources@.len() as int);
        lemma_csr_valid_in_bounds(self.target_offsets@, n, self.targets@.len() as int);
        lemma_csr_valid_in_bounds(
            self.ordered_target_offsets@,
            n,
            self.ordered_targets@.len() as int,
        );
        lemma_csr_valid_in_bounds(self.observer_offsets@, n, self.observers@.len() as int);
    }

    /// Checks the position index entry and the dependent and predecessor ranges of one wire.
    fn check_wire_entry(&self, index: usize) -> (result: Result<(), WireGraphError>)
        requires
            index < self.count(),
            csr_ranges_in_bounds(self.dependent_offsets@, self.dependents@.len() as int),
            csr_ranges_in_bounds(self.predecessor_offsets@, self.predecessors@.len() as int),
        ensures
            result.is_ok() == self.wire_entry_valid(index as int),
    {
        let len = self.positions.len();
        let pos = self.positions[index];
        let id = NetworkWireId(index as u32);
        match self.id(pos) {
            Some(found) => {
                if found.0 != id.0 {
                    return Err(WireGraphError::PositionIndexMismatch(pos));
                }
            },
            None => {
                return Err(WireGraphError::PositionIndexMismatch(pos));
            },
        }
        let dependents = csr_range(self.dependent_offsets.as_slice(), self.dependents.as_slice(), index);
        if !strictly_increasing(dependents) {
            return Err(WireGraphError::DependentsNotUnique(pos));
        }
        if !all_below(dependents, len) {
            return Err(WireGraphError::StaleDependent(pos));
        }
        let predecessors = csr_range(self.predecessor_offsets.as_slice(), self.predecessors.as_slice(), index);
        if predecessors.len() > 255 {
            return Err(WireGraphError::PredecessorCapacityExceeded(pos));
        }
        if !strictly_increasing(predecessors) {
            return Err(WireGraphError::PredecessorsNotUnique(pos));
        }
        if !all_below(predecessors, len) {
            return Err(WireGraphError::StalePredecessor(pos));
        }
        Ok(())
    }

    /// Checks that the columns agree in length, that every offset table fits,
    /// that ordered entries name existing wires and boundaries, that the
    /// position index sends each wire's position to the wire, and that the
    /// dependent and predecessor ranges are strictly increasing, name existing
    /// wires and, for predecessors, hold at most 255 entries.
    pub fn validate(&self) -> (result: Result<(), WireGraphError>)
        ensures
            result.is_ok() == self.well_formed(),
    {
        let len = self.positions.len();
        if self.states.len() != len || self.initial_power.len() != len
            || self.position_index.len() != len {
            return Err(WireGraphError::ColumnSizeMismatch);
        }
        if !csr_is_valid(len, self.dependent_offsets.as_slice(), self.dependents.len()) {
            return Err(WireGraphError::CsrMismatch(WireTable::Dependent));
        }
        let mut k: usize = 0;
        while k < self.ordered_targets.len()
            invariant
                len == self.count(),
                k <= self.ordered_targets@.len(),
                forall|q: int|
                    0 <= q < k ==> {
                        let target = #[trigger] self.ordered_targets@[q];
                        if flagged(target.0) {
                            unflagged(target.0) < self.ordered_boundaries@.len()
                        } else {
                            target.0 < self.count()
                        }
                    },
            decreases self.ordered_targets@.len() - k,
        {
            let target = self.ordered_targets[k];
            match target.wire_id() {
                Some(wire) => {
                    if wire.index() >= len {
                        return Err(WireGraphError::StaleOrderedWire);
                    }
                },
                None => {
                    match target.boundary_index() {
                        Some(index) => {
                            if index >= self.ordered_boundaries.len() {
                                return Err(WireGraphError::StaleOrderedBoundary);
                            }
                        },
                        None => {
                            return Err(WireGraphError::StaleOrderedBoundary);
                        },
                    }
                },
            }
            k += 1;
        }
        if !csr_is_valid(len, self.predecessor_offsets.as_slice(), self.predecessors.len()) {
            return Err(WireGraphError::CsrMismatch(WireTable::Predecessor));
        }
        if !csr_is_valid(len, self.source_offsets.as_slice(), self.sources.len()) {
            return Err(WireGraphError::CsrMismatch(WireTable::Source));
        }
        if !csr_is_valid(len, self.target_offsets.as_slice(), self.targets.len()) {
            return Err(WireGraphError::CsrMismatch(WireTable::Target));
        }
        if !csr_is_valid(len, self.ordered_target_offsets.as_slice(), self.ordered_targets.len()) {
            return Err(WireGraphError::CsrMismatch(WireTable::OrderedTarget));
        }
        if !csr_is_valid(len, self.observer_offsets.as_slice(), self.observers.len()) {
            return Err(WireGraphError::CsrMismatch(WireTable::Observer));
        }
        if self.dependents.len() != self.predecessors.len() {
            return Err(WireGraphError::DirectionSizeMismatch);
        }
        proof {
            lemma_csr_valid_in_bounds(self.dependent_offsets@, len as int, self.dependents@.len() as int);
            lemma_csr_valid_in_bounds(self.predecessor_offsets@, len as int, self.predecessors@.len() as int);
        }
        let mut index: usize = 0;
        while index < len
            invariant
                len == self.count(),
                index <= len,
                csr_ranges_in_bounds(self.dependent_offsets@, self.dependents@.len() as int),
                csr_ranges_in_bounds(self.predecessor_offsets@, self.predecessors@.len() as int),
                forall|i: int| 0 <= i < index ==> #[trigger] self.wire_entry_valid(i),
            decreases len - index,
        {
            let checked = self.check_wire_entry(index);
            if checked.is_err() {
                return checked;
            }
            index += 1;
        }
        Ok(())
    }

    /// The number of wires.
    pub fn len(&self) -> (len: usize)
        ensures
            len == self.count(),
    {
        self.positions.len()
    }

    /// The wire at `pos`, if any.
    pub fn id(&self, pos: BlockPos) -> (id: Option<NetworkWireId>)
        ensures
            id == (if self.position_index.has(pos) {
                Some(self.position_index.at(pos))
            } else {
                None
            }),
    {
        match self.position_index.get(pos) {
            Some(id) => Some(*id),
            None => None,
        }
    }

    /// The wire with id `id`, if the tables hold it.
    pub fn wire(&self, id: NetworkWireId) -> (wire: Option<NetworkWire>)
        ensures
            wire == (if id.0 < self.positions@.len() && id.0 < self.states@.len() && id.0
                < self.initial_power@.len() {
                Some(
                    NetworkWire {
                        id,
                        pos: self.positions@[id.0 as int],
                        state: self.states@[id.0 as int],
                        initial_power: self.initial_power@[id.0 as int],
                    },
                )
            } else {
                None
            }),
    {
        let index = id.index();
        if index >= self.positions.len() || index >= self.states.len() || index
            >= self.initial_power.len() {
            return None;
        }
        Some(
            NetworkWire {
                id,
                pos: self.positions[index],
                state: self.states[index],
                initial_power: self.initial_power[index],
            },
        )
    }

    /// The position of wire `id`, if any.
    pub fn wire_pos(&self, id: NetworkWireId) -> (pos: Option<BlockPos>)
        ensures
            pos == (if id.0 < self.count() {
                Some(self.positions@[id.0 as int])
            } else {
                None
            }),
    {
        self.wire_pos_at(id.index())
    }

    /// The position of the wire in slot `index`, if any.
    pub fn wire_pos_at(&self, index: usize) -> (pos: Option<BlockPos>)
        ensures
            pos == (if index < self.count() {
                Some(self.positions@[index as int])
            } else {
                None
            }),
    {
        if index < self.positions.len() {
            Some(self.positions[index])
        } else {
            None
        }
    }

    /// The wires powered by wire `id`.
    pub fn dependents(&self, id: NetworkWireId) -> (ids: &[NetworkWireId])
        requires
            self.tables_in_bounds(),
        ensures
            ids@ == self.dependents_of(id.0 as int),
    {
        csr_range(self.dependent_offsets.as_slice(), self.dependents.as_slice(), id.index())
    }

    /// The wires powering wire `id`.
    pub fn predecessors(&self, id: NetworkWireId) -> (ids: &[NetworkWireId])
        requires
            self.tables_in_bounds(),
        ensures
            ids@ == self.predecessors_of(id.0 as int),
    {
        csr_range(self.predecessor_offsets.as_slice(), self.predecessors.as_slice(), id.index())
    }

    /// The nodes powering wire `id` directly.
    pub fn sources(&self, id: NetworkWireId) -> (sources: &[NetworkWireSource])
        requires
            self.tables_in_bounds(),
        ensures
            sources@ == self.sources_of(id.0 as int),
    {
        csr_range(self.source_offsets.as_slice(), self.sources.as_slice(), id.index())
    }

    /// The node inputs reading wire `id`.
    pub fn targets(&self, id: NetworkWireId) -> (targets: &[NetworkWireTarget])
        requires
            self.tables_in_bounds(),
        ensures
            targets@ == self.targets_of(id.0 as int),
    {
        csr_range(self.target_offsets.as_slice(), self.targets.as_slice(), id.index())
    }

    /// The ordered update list of wire `id`.
    pub fn ordered_targets(&self, id: NetworkWireId) -> (targets: &[OrderedWireTarget])
        requires
            self.tables_in_bounds(),
        ensures
            targets@ == self.ordered_targets_of(id.0 as int),
    {
        csr_range(
            self.ordered_target_offsets.as_slice(),
            self.ordered_targets.as_slice(),
            id.index(),
        )
    }

    /// The range of wire `id`'s ordered update list in the ordered table.
    pub fn ordered_target_range(&self, id: NetworkWireId) -> (range: Option<(u32, u32)>)
        ensures
            range == (if id.0 + 1 < self.ordered_target_offsets@.len() {
                Some(
                    (
                        self.ordered_target_offsets@[id.0 as int],
                        self.ordered_target_offsets@[id.0 + 1],
                    ),
                )
            } else {
                None
            }),
    {
        let index = id.index();
        if index >= self.ordered_target_offsets.len() || index + 1
            >= self.ordered_target_offsets.len() {
            return None;
        }
        Some((self.ordered_target_offsets[index], self.ordered_target_offsets[index + 1]))
    }

    /// The ordered entry at `index` of the ordered table.
    pub fn ordered_target(&self, index: u32) -> (target: Option<OrderedWireTarget>)
        ensures
            target == (if index < self.ordered_targets@.len() {
                Some(self.ordered_targets@[index as int])
            } else {
                None
            }),
    {
        if (index as usize) < self.ordered_targets.len() {
            Some(self.ordered_targets[index as usize])
        } else {
            None
        }
    }

    /// The boundary at `index` of the boundary table.
    pub fn ordered_boundary(&self, index: usize) -> (boundary: Option<OrderedBoundaryTarget>)
        ensures
            boundary == (if index < self.ordered_boundaries@.len() {
                Some(self.ordered_boundaries@[index as int])
            } else {
                None
            }),
    {
        if index < self.ordered_boundaries.len() {
            Some(self.ordered_boundaries[index])
        } else {
            None
        }
    }

    /// The range of wire `id`'s observers in the observer table, empty when there is none.
    pub fn observer_range(&self, id: NetworkWireId) -> (range: (usize, usize))
        ensures
            range == (if id.0 + 1 < self.observer_offsets@.len() {
                (
                    self.observer_offsets@[id.0 as int] as usize,
                    self.observer_offsets@[id.0 + 1] as usize,
                )
            } else {
                (0usize, 0usize)
            }),
    {
        let index = id.index();
        if index >= self.observer_offsets.len() || index + 1 >= self.observer_offsets.len() {
            return (0, 0);
        }
        (self.observer_offsets[index] as usize, self.observer_offsets[index + 1] as usize)
    }

    /// The observer at `index` of the observer table.
    pub fn observer(&self, index: usize) -> (pos: Option<BlockPos>)
        ensures
            pos == (if index < self.observers@.len() {
                Some(self.observers@[index as int])
            } else {
                None
            }),
    {
        if index < self.observers.len() {
            Some(self.observers[index])
        } else {
            None
        }
    }

    /// The wires powered directly by a source node or a conductor at `pos`.
    pub fn source_wires(&self, pos: BlockPos) -> (wires: &[NetworkWireId])
        ensures
            wires@ == (if self.source_anchors.has(pos) {
                self.source_anchors.at(pos)@
            } else {
                Seq::<NetworkWireId>::empty()
            }),
    {
        match self.source_anchors.get(pos) {
            Some(wires) => wires.as_slice(),
            None => &[],
        }
    }
}

/// The positions where a block change can start a wire update: the block,
/// its six neighbours in update order, and the eight positions one step
/// sideways and one up or down.
pub open spec fn start_positions(pos: BlockPos) -> Seq<BlockPos> {
    seq![
        pos,
        spec_relative(pos, Direction::West),
        spec_relative(pos, Direction::East),
        spec_relative(pos, Direction::Down),
        spec_relative(pos, Direction::Up),
        spec_relative(pos, Direction::North),
        spec_relative(pos, Direction::South),
        spec_relative(spec_relative(pos, Direction::Down), Direction::North),
        spec_relative(spec_relative(pos, Direction::Up), Direction::North),
        spec_relative(spec_relative(pos, Direction::Down), Direction::East),
        spec_relative(spec_relative(pos, Direction::Up), Direction::East),
        spec_relative(spec_relative(pos, Direction::Down), Direction::South),
        spec_relative(spec_relative(pos, Direction::Up), Direction::South),
        spec_relative(spec_relative(pos, Direction::Down), Direction::West),
        spec_relative(spec_relative(pos, Direction::Up), Direction::West),
    ]
}

impl DenseWireGraph {
    /// The wire at `pos`, if any.
    pub open spec fn wire_at(&self, pos: BlockPos) -> Option<NetworkWireId> {
        if self.position_index.has(pos) {
            Some(self.position_index.at(pos))
        } else {
            None
        }
    }

    /// The wires that a source node or conductor at `pos` powers directly.
    pub open spec fn anchored_at(&self, pos: BlockPos) -> Seq<NetworkWireId> {
        if self.source_anchors.has(pos) {
            self.source_anchors.at(pos)@
        } else {
            Seq::empty()
        }
    }

    /// Whether a change at `pos` starts an update of wire `wire`: the wire
    /// lies at one of the start positions, or is anchored at `pos`.
    pub open spec fn starts_change(&self, pos: BlockPos, wire: NetworkWireId) -> bool {
        ||| exists|i: int| 0 <= i < 15 && self.wire_at(#[trigger] start_positions(pos)[i]) == Some(wire)
        ||| self.anchored_at(pos).contains(wire)
    }

    /// The wires where a change at `pos` starts an update, once each, in
    /// ascending order.
    pub fn starts_for_change(&self, pos: BlockPos) -> (starts: Vec<NetworkWireId>)
        ensures
            forall|a: int, b: int| 0 <= a < b < starts@.len() ==> starts@[a].0 < starts@[b].0,
            forall|wire: NetworkWireId| starts@.contains(wire) <==> self.starts_change(pos, wire),
    {
        let mut candidates: Vec<BlockPos> = Vec::new();
        candidates.push(pos);
        let order = Direction::update_order();
        let mut k: usize = 0;
        while k < 6
            invariant
                k <= 6,
                forall|i: int| 0 <= i < 6 ==> #[trigger] order@[i] == crate::position::spec_update_order(i),
                candidates@.len() == k + 1,
                forall|i: int| 0 <= i < k + 1 ==> #[trigger] candidates@[i] == start_positions(pos)[i],
            decreases 6 - k,
        {
            candidates.push(pos.relative(order[k]));
            k += 1;
        }
        let horizontal = Direction::horizontal();
        let mut k: usize = 0;
        while k < 4
            invariant
                k <= 4,
                forall|i: int| 0 <= i < 4 ==> #[trigger] horizontal@[i] == crate::position::spec_horizontal(i),
                candidates@.len() == 7 + 2 * k,
                forall|i: int| 0 <= i < 7 + 2 * k ==> #[trigger] candidates@[i] == start_positions(pos)[i],
            decreases 4 - k,
        {
            candidates.push(pos.relative(Direction::Down).relative(horizontal[k]));
            candidates.push(pos.relative(Direction::Up).relative(horizontal[k]));
            k += 1;
        }
        let mut keys: Vec<u128> = Vec::new();
        let mut k: usize = 0;
        while k < candidates.len()
            invariant
                k <= candidates@.len(),
                candidates@.len() == 15,
                forall|i: int| 0 <= i < 15 ==> #[trigger] candidates@[i] == start_positions(pos)[i],
                forall|q: int| 0 <= q < keys@.len() ==> #[trigger] keys@[q] < 0x1_0000_0000,
                forall|w: NetworkWireId| keys@.contains(w.0 as u128) <==> exists|i: int| 0 <= i < k && self.wire_at(#[trigger] start_positions(pos)[i]) == Some(w),
            decreases candidates@.len() - k,
        {
            let ghost before = keys@;
            match self.id(candidates[k]) {
                Some(wire) => {
                    keys.push(wire.0 as u128);
                    proof {
                        assert forall|w: NetworkWireId| keys@.contains(w.0 as u128) <==> exists|i: int| 0 <= i < k + 1 && self.wire_at(#[trigger] start_positions(pos)[i]) == Some(w) by {
                            if keys@.contains(w.0 as u128) {
                                let q = choose|q: int| 0 <= q < keys@.len() && #[trigger] keys@[q] == w.0 as u128;
                                if q < before.len() {
                                    assert(before[q] == keys@[q]);
                                    assert(before.contains(w.0 as u128));
                                } else {
                                    assert(w == wire);
                                    assert(self.wire_at(start_positions(pos)[k as int]) == Some(w));
                                }
                            }
                            if exists|i: int| 0 <= i < k + 1 && self.wire_at(#[trigger] start_positions(pos)[i]) == Some(w) {
                                let i = choose|i: int| 0 <= i < k + 1 && self.wire_at(#[trigger] start_positions(pos)[i]) == Some(w);
                                if i < k {
                                    assert(before.contains(w.0 as u128));
                                    let q = choose|q: int| 0 <= q < before.len() && #[trigger] before[q] == w.0 as u128;
                                    assert(keys@[q] == before[q]);
                                } else {
                                    assert(keys@[before.len() as int] == w.0 as u128);
                                }
                            }
                        }
                    }
                },
                None => {
                    proof {
                        assert forall|w: NetworkWireId| keys@.contains(w.0 as u128) <==> exists|i: int| 0 <= i < k + 1 && self.wire_at(#[trigger] start_positions(pos)[i]) == Some(w) by {
                            if exists|i: int| 0 <= i < k + 1 && self.wire_at(#[trigger] start_positions(pos)[i]) == Some(w) {
                                let i = choose|i: int| 0 <= i < k + 1 && self.wire_at(#[trigger] start_positions(pos)[i]) == Some(w);
                                assert(i != k);
                            }
                        }
                    }
                },
            }
            k += 1;
        }
        let anchors = self.source_wires(pos);
        let ghost located = keys@;
        let mut k: usize = 0;
        while k < anchors.len()
            invariant
                k <= anchors@.len(),
                anchors@ == self.anchored_at(pos),
                forall|q: int| 0 <= q < keys@.len() ==> #[trigger] keys@[q] < 0x1_0000_0000,
                forall|w: NetworkWireId| located.contains(w.0 as u128) <==> exists|i: int| 0 <= i < 15 && self.wire_at(#[trigger] start_positions(pos)[i]) == Some(w),
                forall|w: NetworkWireId| #[trigger] keys@.contains(w.0 as u128) <==> (located.contains(w.0 as u128) || anchors@.subrange(0, k as int).contains(w)),
            decreases anchors@.len() - k,
        {
            let ghost before = keys@;
            let wire = anchors[k];
            keys.push(wire.0 as u128);
            proof {
                assert forall|w: NetworkWireId| keys@.contains(w.0 as u128) <==> (located.contains(w.0 as u128) || anchors@.subrange(0, k + 1).contains(w)) by {
                    if keys@.contains(w.0 as u128) {
                        let q = choose|q: int| 0 <= q < keys@.len() && #[trigger] keys@[q] == w.0 as u128;
                        if q < before.len() {
                            assert(before[q] == keys@[q]);
                            assert(before.contains(w.0 as u128));
                            if anchors@.subrange(0, k as int).contains(w) {
                                let j = choose|j: int| 0 <= j < k && #[trigger] anchors@.subrange(0, k as int)[j] == w;
                                assert(anchors@.subrange(0, k + 1)[j] == w);
                            }
                        } else {
                            assert(anchors@.subrange(0, k + 1)[k as int] == w);
                        }
                    }
                    if anchors@.subrange(0, k + 1).contains(w) {
                        let j = choose|j: int| 0 <= j < k + 1 && #[trigger] anchors@.subrange(0, k + 1)[j] == w;
                        if j < k {
                            assert(anchors@.subrange(0, k as int)[j] == w);
                            assert(anchors@.subrange(0, k as int).contains(w));
                            assert(before.contains(w.0 as u128));
                            let q = choose|q: int| 0 <= q < before.len() && #[trigger] before[q] == w.0 as u128;
                            assert(keys@[q] == before[q]);
                        } else {
                            assert(keys@[before.len() as int] == w.0 as u128);
                        }
                    }
                    if located.contains(w.0 as u128) {
                        assert(before.contains(w.0 as u128));
                        let q = choose|q: int| 0 <= q < before.len() && #[trigger] before[q] == w.0 as u128;
                        assert(keys@[q] == before[q]);
                    }
                }
            }
            k += 1;
        }
        proof {
            assert(anchors@.subrange(0, anchors@.len() as int) =~= anchors@);
        }
        let ghost unsorted = keys@;
        sort_keys(&mut keys);
        let ghost sorted = keys@;
        proof {
            unsorted.to_multiset_ensures();
            sorted.to_multiset_ensures();
            assert forall|x: u128| sorted.contains(x) <==> unsorted.contains(x) by {
                if sorted.contains(x) {
                    assert(sorted.to_multiset().count(x) > 0);
                }
                if unsorted.contains(x) {
                    assert(unsorted.to_multiset().count(x) > 0);
                }
            }
            assert forall|q: int| 0 <= q < sorted.len() implies #[trigger] sorted[q] < 0x1_0000_0000 by {
                assert(sorted.contains(sorted[q]));
                let j = choose|j: int| 0 <= j < unsorted.len() && #[trigger] unsorted[j] == sorted[q];
            }
        }
        let mut starts: Vec<NetworkWireId> = Vec::new();
        let mut k: usize = 0;
        while k < keys.len()
            invariant
                keys@ == sorted,
                k <= sorted.len(),
                forall|i: int, j: int| 0 <= i < j < sorted.len() ==> sorted[i] <= sorted[j],
                forall|q: int| 0 <= q < sorted.len() ==> #[trigger] sorted[q] < 0x1_0000_0000,
                forall|a: int, b: int| 0 <= a < b < starts@.len() ==> starts@[a].0 < starts@[b].0,
                starts@.len() <= k,
                k > 0 ==> starts@.len() > 0 && starts@.last().0 == sorted[k - 1],
                forall|w: NetworkWireId| starts@.contains(w) <==> sorted.subrange(0, k as int).contains(w.0 as u128),
            decreases sorted.len() - k,
        {
            let key = keys[k];
            let ghost before = starts@;
            let fresh = if starts.len() == 0 {
                true
            } else {
                starts[starts.len() - 1].0 as u128 != key
            };
            if fresh {
                starts.push(NetworkWireId(key as u32));
                proof {
                    assert forall|a: int, b: int| 0 <= a < b < starts@.len() implies starts@[a].0 < starts@[b].0 by {
                        if b == starts@.len() - 1 {
                            assert(starts@[a] == before[a]);
                            if a < before.len() - 1 {
                                assert(before[a].0 < before.last().0);
                            }
                            assert(sorted[k - 1] <= sorted[k as int]);
                        } else {
                            assert(starts@[a] == before[a]);
                            assert(starts@[b] == before[b]);
                        }
                    }
                }
            }
            proof {
                assert forall|w: NetworkWireId| starts@.contains(w) <==> sorted.subrange(0, k + 1).contains(w.0 as u128) by {
                    if starts@.contains(w) {
                        let i = choose|i: int| 0 <= i < starts@.len() && #[trigger] starts@[i] == w;
                        if i < before.len() {
                            assert(before[i] == w);
                            assert(before.contains(w));
                            let q = choose|q: int| 0 <= q < k && #[trigger] sorted.subrange(0, k as int)[q] == w.0 as u128;
                            assert(sorted.subrange(0, k + 1)[q] == w.0 as u128);
                        } else {
                            assert(sorted.subrange(0, k + 1)[k as int] == w.0 as u128);
                        }
                    }
                    if sorted.subrange(0, k + 1).contains(w.0 as u128) {
                        let q = choose|q: int| 0 <= q < k + 1 && #[trigger] sorted.subrange(0, k + 1)[q] == w.0 as u128;
                        if q < k {
                            assert(sorted.subrange(0, k as int)[q] == w.0 as u128);
                            assert(before.contains(w));
                            let i = choose|i: int| 0 <= i < before.len() && #[trigger] before[i] == w;
                            assert(starts@[i] == before[i]);
                        } else if fresh {
                            assert(starts@[starts@.len() - 1] == w);
                        } else {
                            assert(starts@[starts@.len() - 1].0 == w.0);
                            assert(starts@[starts@.len() - 1] == w);
                        }
                    }
                }
            }
            k += 1;
        }
        proof {
            assert(sorted.subrange(0, sorted.len() as int) =~= sorted);
            assert forall|wire: NetworkWireId| starts@.contains(wire) <==> self.starts_change(pos, wire) by {
                if anchors@.contains(wire) {
                    let j = choose|j: int| 0 <= j < anchors@.len() && #[trigger] anchors@[j] == wire;
                    assert(anchors@.subrange(0, anchors@.len() as int)[j] == wire);
                }
            }
        }
        starts
    }
}

} // verus!
