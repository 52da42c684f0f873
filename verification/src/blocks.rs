//! Stage descriptors: what a stage was configured with, and who occupies it.
//!
//! The occupancy is kept by whoever watches the events. An ordered stage
//! shows its units as a queue, an unordered stage as a table of slots whose
//! size is a matter of display and does not bound the stage.

use std::collections::VecDeque;
use vstd::prelude::*;
use crate::events::UnitAdvanceBlockEvent;
use crate::model::{StageConfig, StageKind};

verus! {

/// Number of display slots per unit of concurrency of an unordered stage.
pub const SLOTS_PER_UNIT: usize = 3;

/// An ordered bounded map stage.
#[derive(Clone, Debug)]
pub struct BufferBlock {
    pub id: u32,
    /// Nominal duration of the work, in milliseconds.
    pub duration: u64,
    pub buffered: usize,
    /// The units inside the stage, oldest first.
    pub units: VecDeque<u32>,
}

/// An unordered bounded map stage.
#[derive(Clone, Debug)]
pub struct BufferUnrderedBlock {
    pub id: u32,
    /// Nominal duration of the work, in milliseconds.
    pub duration: u64,
    pub buffered: usize,
    /// The display slots and their occupants.
    pub slots: VecDeque<Option<u32>>,
}

/// A filter stage.
#[derive(Clone, Copy, Debug, PartialEq, Eq, Structural)]
pub struct FilterBlock {
    pub id: u32,
    /// Nominal duration of the work, in milliseconds.
    pub duration: u64,
}

#[derive(Clone, Copy, Debug, PartialEq, Eq, Structural)]
pub struct SourceBlock {
    pub id: u32,
}

#[derive(Clone, Copy, Debug, PartialEq, Eq, Structural)]
pub struct SinkBlock {
    pub id: u32,
}

/// The descriptor of one stage.
#[derive(Clone, Debug)]
pub enum StreamBlock {
    Source(SourceBlock),
    MapBuffer(BufferBlock),
    MapBufferUnordered(BufferUnrderedBlock),
    FilterBlock(FilterBlock),
    Sink(SinkBlock),
}

/// A descriptor as a mathematical value.
pub enum BlockState {
    Source { id: u32 },
    MapBuffer { id: u32, duration: u64, buffered: usize, units: Seq<u32> },
    MapBufferUnordered { id: u32, duration: u64, buffered: usize, slots: Seq<Option<u32>> },
    FilterBlock { id: u32, duration: u64 },
    Sink { id: u32 },
}

impl BlockState {
    pub open spec fn id(self) -> u32 {
        match self {
            BlockState::Source { id } => id,
            BlockState::MapBuffer { id, duration, buffered, units } => id,
            BlockState::MapBufferUnordered { id, duration, buffered, slots } => id,
            BlockState::FilterBlock { id, duration } => id,
            BlockState::Sink { id } => id,
        }
    }
}

/// The units of `units` other than `id`, in order.
pub open spec fn without(units: Seq<u32>, id: u32) -> Seq<u32>
    decreases units.len(),
{
    if units.len() == 0 {
        units
    } else if units.last() == id {
        without(units.drop_last(), id)
    } else {
        without(units.drop_last(), id).push(units.last())
    }
}

/// Position of the first free slot at or after `from`.
pub open spec fn first_free(slots: Seq<Option<u32>>, from: int) -> Option<int>
    decreases slots.len() - from,
{
    if from < 0 || from >= slots.len() {
        None
    } else if slots[from] is None {
        Some(from)
    } else {
        first_free(slots, from + 1)
    }
}

/// The slots after unit `id` has taken the first free one; unchanged where
/// none is free.
pub open spec fn occupied(slots: Seq<Option<u32>>, id: u32) -> Seq<Option<u32>> {
    match first_free(slots, 0) {
        Some(i) => slots.update(i, Some(id)),
        None => slots,
    }
}

/// The slots after unit `id` has given up every slot that it had.
pub open spec fn vacated(slots: Seq<Option<u32>>, id: u32) -> Seq<Option<u32>> {
    Seq::new(
        slots.len(),
        |i: int|
            if slots[i] == Some(id) {
                None
            } else {
                slots[i]
            },
    )
}

impl BlockState {
    /// The descriptor after unit `id` has entered the stage: an ordered
    /// stage puts it at the back of its queue, an unordered stage into its
    /// first free slot.
    pub open spec fn arrived(self, unit: u32) -> BlockState {
        match self {
            BlockState::MapBuffer { id, duration, buffered, units } => BlockState::MapBuffer {
                id,
                duration,
                buffered,
                units: units.push(unit),
            },
            BlockState::MapBufferUnordered {
                id,
                duration,
                buffered,
                slots,
            } => BlockState::MapBufferUnordered {
                id,
                duration,
                buffered,
                slots: occupied(slots, unit),
            },
            _ => self,
        }
    }

    /// The descriptor after unit `id` has left the stage.
    pub open spec fn departed(self, unit: u32) -> BlockState {
        match self {
            BlockState::MapBuffer { id, duration, buffered, units } => BlockState::MapBuffer {
                id,
                duration,
                buffered,
                units: without(units, unit),
            },
            BlockState::MapBufferUnordered {
                id,
                duration,
                buffered,
                slots,
            } => BlockState::MapBufferUnordered {
                id,
                duration,
                buffered,
                slots: vacated(slots, unit),
            },
            _ => self,
        }
    }

    /// The stage has a place for one more unit to show.
    pub open spec fn has_place(self) -> bool {
        match self {
            BlockState::MapBufferUnordered { id, duration, buffered, slots } => first_free(
                slots,
                0,
            ) is Some,
            _ => true,
        }
    }

    /// The descriptor after the units that `advances` moves into the stage
    /// have entered it, in order.
    pub open spec fn after_arrivals(self, advances: Seq<UnitAdvanceBlockEvent>) -> BlockState
        decreases advances.len(),
    {
        if advances.len() == 0 {
            self
        } else {
            let before = self.after_arrivals(advances.drop_last());
            if advances.last().block_id == self.id() {
                before.arrived(advances.last().id)
            } else {
                before
            }
        }
    }

    /// Every unit that `advances` moves into the stage finds a place to be
    /// shown when it enters, the units entering in order.
    pub open spec fn places_all(self, advances: Seq<UnitAdvanceBlockEvent>) -> bool
        decreases advances.len(),
    {
        advances.len() > 0 ==> {
            &&& self.places_all(advances.drop_last())
            &&& advances.last().block_id == self.id() ==> self.after_arrivals(
                advances.drop_last(),
            ).has_place()
        }
    }

    /// The descriptor after the units that `advances` moves on from the
    /// stage have left it, in order.
    pub open spec fn after_departures(self, advances: Seq<UnitAdvanceBlockEvent>) -> BlockState
        decreases advances.len(),
    {
        if advances.len() == 0 {
            self
        } else {
            let before = self.after_departures(advances.drop_last());
            if advances.last().from_block_id == self.id() {
                before.departed(advances.last().id)
            } else {
                before
            }
        }
    }

    /// The descriptor after a batch of moves: first every arrival, then
    /// every departure.
    pub open spec fn reconciled(self, advances: Seq<UnitAdvanceBlockEvent>) -> BlockState {
        self.after_arrivals(advances).after_departures(advances)
    }
}

/// Among units that are all different, leaving out the first leaves the
/// rest.
pub proof fn lemma_without_first(units: Seq<u32>)
    requires
        units.len() > 0,
        units.no_duplicates(),
    ensures
        without(units, units[0]) == units.drop_first(),
    decreases units.len(),
{
    if units.len() == 1 {
        assert(without(units.drop_last(), units[0]) =~= units.drop_first());
    } else {
        lemma_without_first(units.drop_last());
        assert(units.drop_last().drop_first().push(units.last()) =~= units.drop_first());
    }
}

/// A batch of arrivals leaves the identifier of a stage as it is.
pub proof fn lemma_arrivals_keep_id(b: BlockState, advances: Seq<UnitAdvanceBlockEvent>)
    ensures
        b.after_arrivals(advances).id() == b.id(),
    decreases advances.len(),
{
    if advances.len() > 0 {
        lemma_arrivals_keep_id(b, advances.drop_last());
    }
}

impl View for BufferBlock {
    type V = BlockState;

    open spec fn view(&self) -> BlockState {
        BlockState::MapBuffer {
            id: self.id,
            duration: self.duration,
            buffered: self.buffered,
            units: self.units@,
        }
    }
}

impl View for BufferUnrderedBlock {
    type V = BlockState;

    open spec fn view(&self) -> BlockState {
        BlockState::MapBufferUnordered {
            id: self.id,
            duration: self.duration,
            buffered: self.buffered,
            slots: self.slots@,
        }
    }
}

impl View for StreamBlock {
    type V = BlockState;

    open spec fn view(&self) -> BlockState {
        match *self {
            StreamBlock::Source(b) => BlockState::Source { id: b.id },
            StreamBlock::MapBuffer(b) => b@,
            StreamBlock::MapBufferUnordered(b) => b@,
            StreamBlock::FilterBlock(b) => BlockState::FilterBlock { id: b.id, duration: b.duration },
            StreamBlock::Sink(b) => BlockState::Sink { id: b.id },
        }
    }
}

/// The descriptors as mathematical values, in order.
pub open spec fn views(blocks: Seq<StreamBlock>) -> Seq<BlockState> {
    Seq::new(blocks.len(), |i: int| blocks[i]@)
}

/// Number of display slots of an unordered stage with concurrency
/// `buffered`: three per unit, as far as the count is representable.
pub open spec fn spec_slot_count(buffered: usize) -> usize {
    if buffered * 3 > usize::MAX {
        usize::MAX
    } else {
        (buffered * 3) as usize
    }
}

#[verifier::when_used_as_spec(spec_slot_count)]
pub fn slot_count(buffered: usize) -> (n: usize)
    ensures
        n == spec_slot_count(buffered),
{
    match buffered.checked_mul(SLOTS_PER_UNIT) {
        Some(n) => n,
        None => usize::MAX,
    }
}

/// The descriptor of an empty stage with configuration `config` and
/// identifier `id`.
pub open spec fn spec_descriptor(config: StageConfig, id: u32) -> BlockState {
    match config.kind {
        StageKind::Filter => BlockState::FilterBlock { id, duration: config.duration.duration },
        StageKind::Ordered => BlockState::MapBuffer {
            id,
            duration: config.duration.duration,
            buffered: config.capacity,
            units: Seq::<u32>::empty(),
        },
        StageKind::Unordered => BlockState::MapBufferUnordered {
            id,
            duration: config.duration.duration,
            buffered: config.capacity,
            slots: Seq::new(spec_slot_count(config.capacity) as nat, |i: int| None::<u32>),
        },
    }
}

/// The descriptors of a pipeline under construction: the source, then one
/// stage per configuration, numbered from 0 in order.
pub open spec fn spec_descriptors(configs: Seq<StageConfig>) -> Seq<BlockState> {
    Seq::new(
        configs.len() + 1,
        |i: int|
            if i == 0 {
                BlockState::Source { id: 0 }
            } else {
                spec_descriptor(configs[i - 1], i as u32)
            },
    )
}

/// The descriptors of a finished pipeline: those of its stages, then the
/// sink.
pub open spec fn spec_pipeline(configs: Seq<StageConfig>) -> Seq<BlockState> {
    spec_descriptors(configs).push(BlockState::Sink { id: (configs.len() + 1) as u32 })
}

impl BufferBlock {
    /// Unit `id` has entered the stage: it joins the queue at the back.
    pub fn enter(&mut self, id: u32)
        ensures
            final(self)@ == old(self)@.arrived(id),
    {
        self.units.push_back(id);
    }

    /// Unit `id` has left the stage: it leaves the queue, wherever it stood.
    pub fn leave(&mut self, id: u32)
        ensures
            final(self)@ == old(self)@.departed(id),
    {
        let mut kept: VecDeque<u32> = VecDeque::new();
        let mut i: usize = 0;
        proof {
            assert(self.units@.take(0) =~= Seq::<u32>::empty());
        }
        while i < self.units.len()
            invariant
                i <= self.units@.len(),
                kept@ == without(self.units@.take(i as int), id),
            decreases self.units@.len() - i,
        {
            let unit: u32 = self.units[i];
            proof {
                assert(self.units@.take(i + 1).drop_last() =~= self.units@.take(i as int));
            }
            if unit != id {
                kept.push_back(unit);
            }
            i = i + 1;
        }
        proof {
            assert(self.units@.take(i as int) =~= self.units@);
        }
        self.units = kept;
    }
}

impl BufferUnrderedBlock {
    /// Unit `id` has entered the stage: it takes the first free slot.
    /// Answers whether there was one.
    pub fn enter(&mut self, id: u32) -> (placed: bool)
        ensures
            final(self)@ == old(self)@.arrived(id),
            placed == old(self)@.has_place(),
    {
        let mut i: usize = 0;
        while i < self.slots.len()
            invariant
                i <= self.slots@.len(),
                first_free(self.slots@, 0) == first_free(self.slots@, i as int),
                self.slots@ == old(self).slots@,
                self.id == old(self).id,
                self.duration == old(self).duration,
                self.buffered == old(self).buffered,
            decreases self.slots@.len() - i,
        {
            let free = match self.slots[i] {
                None => true,
                Some(_) => false,
            };
            if free {
                self.slots.remove(i);
                self.slots.insert(i, Some(id));
                proof {
                    assert(self.slots@ =~= old(self).slots@.update(i as int, Some(id)));
                }
                return true;
            }
            i = i + 1;
        }
        false
    }

    /// Unit `id` has left the stage: every slot that it had is free again.
    pub fn leave(&mut self, id: u32)
        ensures
            final(self)@ == old(self)@.departed(id),
    {
        let mut slots: VecDeque<Option<u32>> = VecDeque::new();
        let mut i: usize = 0;
        while i < self.slots.len()
            invariant
                i <= self.slots@.len(),
                slots@ == vacated(self.slots@, id).take(i as int),
            decreases self.slots@.len() - i,
        {
            let kept: Option<u32> = match self.slots[i] {
                Some(unit) => if unit == id {
                    None
                } else {
                    Some(unit)
                },
                None => None,
            };
            slots.push_back(kept);
            proof {
                assert(slots@ =~= vacated(self.slots@, id).take(i + 1));
            }
            i = i + 1;
        }
        proof {
            assert(slots@ =~= vacated(self.slots@, id));
        }
        self.slots = slots;
    }

    /// An unordered stage whose `size` display slots are all free.
    pub fn new(id: u32, size: usize, duration: u64, buffered: usize) -> (b: Self)
        ensures
            b.id == id,
            b.duration == duration,
            b.buffered == buffered,
            b.slots@ == Seq::new(size as nat, |i: int| None::<u32>),
    {
        let mut slots: VecDeque<Option<u32>> = VecDeque::new();
        let mut n: usize = 0;
        while n < size
            invariant
                n <= size,
                slots@ == Seq::new(n as nat, |i: int| None::<u32>),
            decreases size - n,
        {
            slots.push_back(None);
            n = n + 1;
            assert(slots@ =~= Seq::new(n as nat, |i: int| None::<u32>));
        }
        BufferUnrderedBlock { id, duration, buffered, slots }
    }
}

impl StreamBlock {
    /// Identifier of the stage.
    pub fn id(&self) -> (id: u32)
        ensures
            id == self@.id(),
    {
        match self {
            StreamBlock::Source(block) => block.id,
            StreamBlock::MapBuffer(block) => block.id,
            StreamBlock::MapBufferUnordered(block) => block.id,
            StreamBlock::FilterBlock(block) => block.id,
            StreamBlock::Sink(block) => block.id,
        }
    }

    /// Unit `unit` has entered the stage. Answers whether the stage had a
    /// place to show it.
    pub fn enter(&mut self, unit: u32) -> (placed: bool)
        ensures
            final(self)@ == old(self)@.arrived(unit),
            placed == old(self)@.has_place(),
    {
        match self {
            StreamBlock::MapBuffer(block) => {
                block.enter(unit);
                true
            },
            StreamBlock::MapBufferUnordered(block) => block.enter(unit),
            _ => true,
        }
    }

    /// Unit `unit` has left the stage.
    pub fn leave(&mut self, unit: u32)
        ensures
            final(self)@ == old(self)@.departed(unit),
    {
        match self {
            StreamBlock::MapBuffer(block) => {
                block.leave(unit);
            },
            StreamBlock::MapBufferUnordered(block) => {
                block.leave(unit);
            },
            _ => {},
        }
    }

    /// Brings the occupancy up to date with a batch of moves: first the
    /// units that moved into the stage enter it, in order, then the units
    /// that moved on from it leave it. Answers whether every unit that
    /// entered found a place to be shown.
    pub fn reconcile(&mut self, advances: &Vec<UnitAdvanceBlockEvent>) -> (shown: bool)
        ensures
            final(self)@ == old(self)@.reconciled(advances@),
            shown == old(self)@.places_all(advances@),
    {
        let ghost before = self@;
        let id: u32 = self.id();
        let mut shown = true;
        let mut i: usize = 0;
        proof {
            assert(advances@.take(0) =~= Seq::<UnitAdvanceBlockEvent>::empty());
        }
        while i < advances.len()
            invariant
                i <= advances@.len(),
                id == before.id(),
                self@ == before.after_arrivals(advances@.take(i as int)),
                shown == before.places_all(advances@.take(i as int)),
            decreases advances@.len() - i,
        {
            proof {
                assert(advances@.take(i + 1).drop_last() =~= advances@.take(i as int));
            }
            if advances[i].block_id == id {
                let placed = self.enter(advances[i].id);
                shown = shown && placed;
            }
            i = i + 1;
        }
        proof {
            assert(advances@.take(i as int) =~= advances@);
            lemma_arrivals_keep_id(before, advances@);
        }
        let ghost arrived = self@;
        i = 0;
        proof {
            assert(advances@.take(0) =~= Seq::<UnitAdvanceBlockEvent>::empty());
        }
        while i < advances.len()
            invariant
                i <= advances@.len(),
                id == arrived.id(),
                self@ == arrived.after_departures(advances@.take(i as int)),
            decreases advances@.len() - i,
        {
            proof {
                assert(advances@.take(i + 1).drop_last() =~= advances@.take(i as int));
            }
            if advances[i].from_block_id == id {
                self.leave(advances[i].id);
            }
            i = i + 1;
        }
        proof {
            assert(advances@.take(i as int) =~= advances@);
        }
        shown
    }

    /// The descriptor of an empty stage with configuration `config` and
    /// identifier `id`.
    pub fn describe(config: &StageConfig, id: u32) -> (b: StreamBlock)
        ensures
            b@ == spec_descriptor(*config, id),
    {
        match config.kind {
            StageKind::Filter => StreamBlock::FilterBlock(
                FilterBlock { id, duration: config.duration.duration },
            ),
            StageKind::Ordered => StreamBlock::MapBuffer(
                BufferBlock {
                    id,
                    duration: config.duration.duration,
                    buffered: config.capacity,
                    units: VecDeque::new(),
                },
            ),
            StageKind::Unordered => StreamBlock::MapBufferUnordered(
                BufferUnrderedBlock::new(
                    id,
                    slot_count(config.capacity),
                    config.duration.duration,
                    config.capacity,
                ),
            ),
        }
    }
}

} // verus!
