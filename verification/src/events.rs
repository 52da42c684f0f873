//! The lifecycle events that a running pipeline reports, and the values they
//! carry.

use vstd::prelude::*;

verus! {

/// Number of progress ticks that one unit of simulated work goes through.
pub const TICKS: u32 = 5;

/// An opaque colour, each channel in hundredths of full intensity.
#[derive(Clone, Copy, Debug, PartialEq, Eq, Structural)]
pub struct Color {
    pub red: u8,
    pub green: u8,
    pub blue: u8,
}

/// Colour that a freshly created unit carries.
pub open spec fn spec_white() -> Color {
    Color { red: 100, green: 100, blue: 100 }
}

/// Colour that stage `id` gives to the units it admits: the palette has four
/// entries and repeats.
pub open spec fn spec_stage_color(id: u32) -> Color {
    if id % 4 == 0 {
        Color { red: 50, green: 27, blue: 45 }
    } else if id % 4 == 1 {
        Color { red: 66, green: 39, blue: 39 }
    } else if id % 4 == 2 {
        Color { red: 61, green: 27, blue: 27 }
    } else {
        Color { red: 26, green: 46, blue: 42 }
    }
}

#[verifier::when_used_as_spec(spec_white)]
pub fn white() -> (c: Color)
    ensures
        c == spec_white(),
{
    Color { red: 100, green: 100, blue: 100 }
}

#[verifier::when_used_as_spec(spec_stage_color)]
pub fn stage_color(id: u32) -> (c: Color)
    ensures
        c == spec_stage_color(id),
{
    let slot: u32 = id % 4;
    if slot == 0 {
        Color { red: 50, green: 27, blue: 45 }
    } else if slot == 1 {
        Color { red: 66, green: 39, blue: 39 }
    } else if slot == 2 {
        Color { red: 61, green: 27, blue: 27 }
    } else {
        Color { red: 26, green: 46, blue: 42 }
    }
}

/// How far a unit of work has come: `tick` of `ticks` steps are done.
#[derive(Clone, Copy, Debug, PartialEq, Eq, Structural)]
pub struct Progress {
    pub tick: u32,
    pub ticks: u32,
}

impl Progress {
    /// The work has reached its last tick.
    pub open spec fn spec_is_final(&self) -> bool {
        self.tick >= self.ticks
    }

    #[verifier::when_used_as_spec(spec_is_final)]
    pub fn is_final(&self) -> (r: bool)
        ensures
            r == self.spec_is_final(),
    {
        self.tick >= self.ticks
    }
}

/// What a unit currently shows.
#[derive(Clone, Copy, Debug, PartialEq, Eq, Structural)]
pub enum UnitValueKind {
    /// Admitted to a stage, work not yet started.
    PendingFuture(Color),
    /// Work under way.
    RunningFuture(Progress),
    /// A settled value.
    Value(Color),
}

/// A unit entered the pipeline at the source.
#[derive(Clone, Copy, Debug, PartialEq, Eq, Structural)]
pub struct UnitCreatedEvent {
    pub id: u32,
    pub block_id: u32,
    pub value: UnitValueKind,
}

/// A unit shows a new value.
#[derive(Clone, Copy, Debug, PartialEq, Eq, Structural)]
pub struct UnitValueUpdateEvent {
    pub id: u32,
    pub value: UnitValueKind,
}

/// A filter dropped a unit for good.
#[derive(Clone, Copy, Debug, PartialEq, Eq, Structural)]
pub struct FilteredOutEvent {
    pub id: u32,
}

/// A unit moved from stage `from_block_id` into stage `block_id`.
#[derive(Clone, Copy, Debug, PartialEq, Eq, Structural)]
pub struct UnitAdvanceBlockEvent {
    pub id: u32,
    pub block_id: u32,
    pub from_block_id: u32,
}

/// One fact about the run. Events carry no time: their order is the order in
/// which they were emitted.
#[derive(Clone, Copy, Debug, PartialEq, Eq, Structural)]
pub enum StreamUpdate {
    Created(UnitCreatedEvent),
    ChangeValue(UnitValueUpdateEvent),
    AdvanceBlock(UnitAdvanceBlockEvent),
    FilteredOut(FilteredOutEvent),
}

impl StreamUpdate {
    /// The unit that the event is about.
    pub open spec fn spec_unit_id(&self) -> u32 {
        match *self {
            StreamUpdate::Created(e) => e.id,
            StreamUpdate::ChangeValue(e) => e.id,
            StreamUpdate::AdvanceBlock(e) => e.id,
            StreamUpdate::FilteredOut(e) => e.id,
        }
    }

    #[verifier::when_used_as_spec(spec_unit_id)]
    pub fn unit_id(&self) -> (id: u32)
        ensures
            id == self.spec_unit_id(),
    {
        match self {
            StreamUpdate::Created(e) => e.id,
            StreamUpdate::ChangeValue(e) => e.id,
            StreamUpdate::AdvanceBlock(e) => e.id,
            StreamUpdate::FilteredOut(e) => e.id,
        }
    }
}

/// A unit in flight: its identifier and the stage that last admitted it.
#[derive(Clone, Copy, Debug, PartialEq, Eq, Structural)]
pub struct StreamedUnit {
    pub id: u32,
    pub block_id: u32,
}

/// The event that the source emits for unit `id`.
pub open spec fn spec_created(id: u32) -> StreamUpdate {
    StreamUpdate::Created(
        UnitCreatedEvent { id, block_id: 0, value: UnitValueKind::Value(spec_white()) },
    )
}

/// The event that stage `to` emits when it takes unit `id` from stage `from`.
pub open spec fn spec_advanced(id: u32, from: u32, to: u32) -> StreamUpdate {
    StreamUpdate::AdvanceBlock(UnitAdvanceBlockEvent { id, block_id: to, from_block_id: from })
}

/// The event that follows an admission into stage `stage`.
pub open spec fn spec_pending(id: u32, stage: u32) -> StreamUpdate {
    StreamUpdate::ChangeValue(
        UnitValueUpdateEvent { id, value: UnitValueKind::PendingFuture(spec_stage_color(stage)) },
    )
}

/// The event that reports `tick` of [`TICKS`] steps of work on unit `id`.
pub open spec fn spec_progressed(id: u32, tick: u32) -> StreamUpdate {
    StreamUpdate::ChangeValue(
        UnitValueUpdateEvent {
            id,
            value: UnitValueKind::RunningFuture(Progress { tick, ticks: TICKS }),
        },
    )
}

/// The event that a filter emits when it drops unit `id`.
pub open spec fn spec_rejected(id: u32) -> StreamUpdate {
    StreamUpdate::FilteredOut(FilteredOutEvent { id })
}

#[verifier::when_used_as_spec(spec_created)]
pub fn created(id: u32) -> (e: StreamUpdate)
    ensures
        e == spec_created(id),
{
    StreamUpdate::Created(UnitCreatedEvent { id, block_id: 0, value: UnitValueKind::Value(white()) })
}

#[verifier::when_used_as_spec(spec_advanced)]
pub fn advanced(id: u32, from: u32, to: u32) -> (e: StreamUpdate)
    ensures
        e == spec_advanced(id, from, to),
{
    StreamUpdate::AdvanceBlock(UnitAdvanceBlockEvent { id, block_id: to, from_block_id: from })
}

#[verifier::when_used_as_spec(spec_pending)]
pub fn pending(id: u32, stage: u32) -> (e: StreamUpdate)
    ensures
        e == spec_pending(id, stage),
{
    StreamUpdate::ChangeValue(
        UnitValueUpdateEvent { id, value: UnitValueKind::PendingFuture(stage_color(stage)) },
    )
}

#[verifier::when_used_as_spec(spec_progressed)]
pub fn progressed(id: u32, tick: u32) -> (e: StreamUpdate)
    ensures
        e == spec_progressed(id, tick),
{
    StreamUpdate::ChangeValue(
        UnitValueUpdateEvent {
            id,
            value: UnitValueKind::RunningFuture(Progress { tick, ticks: TICKS }),
        },
    )
}

#[verifier::when_used_as_spec(spec_rejected)]
pub fn rejected(id: u32) -> (e: StreamUpdate)
    ensures
        e == spec_rejected(id),
{
    StreamUpdate::FilteredOut(FilteredOutEvent { id })
}

} // verus!
