//! The pipeline as a mathematical state machine.
//!
//! A state holds, for every stage, the units of work that the stage has
//! admitted and not yet handed on, and the sequence of all events emitted so
//! far. [`next_action`] decides what a pull of the sink does at a given time;
//! [`applied`] and [`emitted`] say what that action changes and reports.

use vstd::prelude::*;
use crate::events::{
    StreamUpdate, StreamedUnit, TICKS, spec_advanced, spec_created, spec_pending,
    spec_progressed, spec_rejected,
};
use crate::jitter::{JitteringDuration, spec_retains};

verus! {

/// Where a unit of work stands inside its stage.
#[derive(Clone, Copy, Debug, PartialEq, Eq, Structural)]
pub enum Phase {
    /// Admitted; the work has not been started.
    Admitted,
    /// `ticks` steps are done; the next one is due at `deadline`, and the
    /// steps are `interval` milliseconds apart.
    Running { ticks: u32, interval: u64, deadline: u64 },
    /// All steps are done; the unit waits to be handed on.
    Complete,
}

/// One unit of simulated work.
#[derive(Clone, Copy, Debug, PartialEq, Eq, Structural)]
pub struct Work {
    pub unit: StreamedUnit,
    pub phase: Phase,
}

/// The policy of a stage.
#[derive(Clone, Copy, Debug, PartialEq, Eq, Structural)]
pub enum StageKind {
    /// One unit at a time; a finished unit is kept or dropped by a draw.
    Filter,
    /// Up to `capacity` units at a time; units leave in the order in which
    /// they came.
    Ordered,
    /// Up to `capacity` units at a time; a unit leaves as soon as it is
    /// finished.
    Unordered,
}

/// What a stage was configured with.
#[derive(Clone, Copy, Debug, PartialEq, Eq, Structural)]
pub struct StageConfig {
    pub kind: StageKind,
    /// Largest number of units that the stage holds at once.
    pub capacity: usize,
    /// Retain ratio of a filter, in thousandths.
    pub ratio: u32,
    pub duration: JitteringDuration,
}

/// What the pipeline does next. Stages are named by their identifier: the
/// source is 0, the stages follow from 1, the sink comes last.
#[derive(Clone, Copy, Debug, PartialEq, Eq, Structural)]
pub enum Action {
    /// Stage `stage` takes a unit from the stage before it: a new unit where
    /// that is the source, else the unit at position `slot` there.
    Admit { stage: usize, slot: usize },
    /// The work at position `slot` of stage `stage` starts.
    Start { stage: usize, slot: usize },
    /// The work at position `slot` of stage `stage` makes its next step.
    Tick { stage: usize, slot: usize },
    /// Nothing can happen before the time `until`.
    Wait { until: u64 },
    /// The source is exhausted and every stage is empty.
    Finish,
}

/// What a stage answers when the stage after it asks for a unit.
#[derive(Clone, Copy, Debug, PartialEq, Eq, Structural)]
pub enum Pull {
    /// Something has to happen first, in this stage or before it.
    Act(Action),
    /// The unit at this position can be handed over.
    Ready(usize),
    /// Nothing to hand over, and nothing to do before this time.
    Pending(u64),
    /// No unit will ever come.
    Done,
}

/// The state of one stage.
pub struct StageState {
    pub config: StageConfig,
    /// The units that the stage holds, in the order in which it admitted them.
    pub works: Seq<Work>,
}

/// The state of a pipeline.
pub struct EngineState {
    /// Number of units that the source produces in all.
    pub size: nat,
    /// Number of units that the source has produced so far.
    pub next_id: nat,
    /// The stages between source and sink; `stages[j]` has identifier `j + 1`.
    pub stages: Seq<StageState>,
    /// Every event emitted so far, oldest first.
    pub history: Seq<StreamUpdate>,
}

/// The work can make a step at time `now`.
pub open spec fn is_due(w: Work, now: u64) -> bool {
    match w.phase {
        Phase::Admitted => true,
        Phase::Running { ticks, interval, deadline } => deadline <= now,
        Phase::Complete => false,
    }
}

/// Position of the first work at or after `from` that can make a step.
pub open spec fn first_due(works: Seq<Work>, now: u64, from: int) -> Option<int>
    decreases works.len() - from,
{
    if from < 0 || from >= works.len() {
        None
    } else if is_due(works[from], now) {
        Some(from)
    } else {
        first_due(works, now, from + 1)
    }
}

/// Position of the first finished work at or after `from`.
pub open spec fn first_complete(works: Seq<Work>, from: int) -> Option<int>
    decreases works.len() - from,
{
    if from < 0 || from >= works.len() {
        None
    } else if works[from].phase is Complete {
        Some(from)
    } else {
        first_complete(works, from + 1)
    }
}

/// The earliest deadline among the running works at or after `from`; the
/// largest time where there is none.
pub open spec fn earliest(works: Seq<Work>, from: int) -> u64
    decreases works.len() - from,
{
    if from < 0 || from >= works.len() {
        u64::MAX
    } else {
        let rest = earliest(works, from + 1);
        match works[from].phase {
            Phase::Running { ticks, interval, deadline } => if deadline < rest {
                deadline
            } else {
                rest
            },
            _ => rest,
        }
    }
}

/// The time `interval` milliseconds after `now`, capped at the largest time.
pub open spec fn spec_later(now: u64, interval: u64) -> u64 {
    if now + interval > u64::MAX {
        u64::MAX
    } else {
        (now + interval) as u64
    }
}

impl StageState {
    /// Position of the unit that the stage can hand over: for an unordered
    /// stage the first finished one, else the oldest if it is finished.
    pub open spec fn ready(self) -> Option<int> {
        match self.config.kind {
            StageKind::Unordered => first_complete(self.works, 0),
            _ => if self.works.len() > 0 && self.works[0].phase is Complete {
                Some(0)
            } else {
                None
            },
        }
    }

    /// The stage can take in one more unit.
    pub open spec fn has_room(self) -> bool {
        self.works.len() < self.config.capacity
    }

    /// The identifiers of the units that the stage holds, oldest first.
    pub open spec fn ids(self) -> Seq<u32> {
        Seq::new(self.works.len(), |i: int| self.works[i].unit.id)
    }

    /// The stage with `works` in place of its own.
    pub open spec fn with_works(self, works: Seq<Work>) -> StageState {
        StageState { config: self.config, works }
    }
}

/// The action by which the work at `slot` of stage `stage` goes on.
pub open spec fn progress_of(w: Work, stage: int, slot: int) -> Action {
    if w.phase is Admitted {
        Action::Start { stage: stage as usize, slot: slot as usize }
    } else {
        Action::Tick { stage: stage as usize, slot: slot as usize }
    }
}

/// The deadline that an answer carries.
pub open spec fn wake_of(p: Pull) -> u64 {
    match p {
        Pull::Pending(until) => until,
        _ => u64::MAX,
    }
}

/// The earlier of two times.
pub open spec fn sooner(a: u64, b: u64) -> u64 {
    if a < b {
        a
    } else {
        b
    }
}

impl EngineState {
    /// The state of a pipeline of `size` units and the given stages before
    /// anything has happened.
    pub open spec fn initial(size: nat, configs: Seq<StageConfig>) -> EngineState {
        EngineState {
            size,
            next_id: 0,
            stages: Seq::new(
                configs.len(),
                |j: int| StageState { config: configs[j], works: Seq::<Work>::empty() },
            ),
            history: Seq::<StreamUpdate>::empty(),
        }
    }

    /// Identifier of the sink.
    pub open spec fn sink(self) -> int {
        (self.stages.len() + 1) as int
    }

    /// The state of the stage with identifier `k`.
    pub open spec fn stage(self, k: int) -> StageState {
        self.stages[k - 1]
    }

    /// The state with `works` in place of the works of stage `k`.
    pub open spec fn with_works(self, k: int, works: Seq<Work>) -> EngineState {
        EngineState {
            size: self.size,
            next_id: self.next_id,
            stages: self.stages.update(k - 1, self.stage(k).with_works(works)),
            history: self.history,
        }
    }

    /// What stage `k` answers at time `now` when it is asked for a unit.
    ///
    /// The source hands out units while it has any. A stage hands over what
    /// it has ready. Else, while it has room, it asks the stage before it,
    /// and admits what that stage hands over; else it lets the first of its
    /// own works that is due make a step. With nothing to do it waits for
    /// the earliest deadline that it has seen, or is done when it is empty
    /// and nothing more will come.
    pub open spec fn pull(self, k: int, now: u64) -> Pull
        decreases k,
    {
        if k <= 0 {
            if self.next_id < self.size {
                Pull::Ready(0)
            } else {
                Pull::Done
            }
        } else if k > self.stages.len() {
            Pull::Done
        } else {
            let st = self.stage(k);
            match st.ready() {
                Some(i) => Pull::Ready(i as usize),
                None => {
                    let up = if st.has_room() {
                        self.pull(k - 1, now)
                    } else {
                        Pull::Pending(u64::MAX)
                    };
                    match up {
                        Pull::Act(a) => Pull::Act(a),
                        Pull::Ready(i) => Pull::Act(Action::Admit { stage: k as usize, slot: i }),
                        _ => match first_due(st.works, now, 0) {
                            Some(i) => Pull::Act(progress_of(st.works[i], k, i)),
                            None => if st.works.len() == 0 && up is Done {
                                Pull::Done
                            } else {
                                Pull::Pending(sooner(wake_of(up), earliest(st.works, 0)))
                            },
                        },
                    }
                },
            }
        }
    }

    /// What a pull of the sink does at time `now`.
    pub open spec fn next_action(self, now: u64) -> Action {
        match self.pull(self.stages.len() as int, now) {
            Pull::Act(a) => a,
            Pull::Ready(i) => Action::Admit { stage: self.sink() as usize, slot: i },
            Pull::Pending(until) => Action::Wait { until },
            Pull::Done => Action::Finish,
        }
    }

    /// The source is exhausted and every stage is empty.
    pub open spec fn drained(self) -> bool {
        &&& self.next_id >= self.size
        &&& forall|j: int| 0 <= j < self.stages.len() ==> (#[trigger] self.stages[j]).works.len() == 0
    }

    /// Stage `k` can hand over the unit at `slot`: the source while it has
    /// units left, a stage a finished unit, and only its oldest unless the
    /// stage is unordered.
    pub open spec fn can_take(self, k: int, slot: int) -> bool {
        if k == 0 {
            self.next_id < self.size
        } else {
            let from = self.stage(k);
            &&& 1 <= k <= self.stages.len()
            &&& 0 <= slot < from.works.len()
            &&& from.works[slot].phase is Complete
            &&& !(from.config.kind is Unordered) ==> slot == 0
        }
    }

    /// Stage `stage` can take in the unit at `slot` of the stage before it.
    pub open spec fn admissible(self, stage: int, slot: int) -> bool {
        &&& 1 <= stage <= self.sink()
        &&& self.can_take(stage - 1, slot)
        &&& stage < self.sink() ==> self.stage(stage).has_room()
    }

    /// The work at `slot` of stage `stage` can start.
    pub open spec fn startable(self, stage: int, slot: int) -> bool {
        &&& 1 <= stage < self.sink()
        &&& 0 <= slot < self.stage(stage).works.len()
        &&& self.stage(stage).works[slot].phase is Admitted
    }

    /// The work at `slot` of stage `stage` can make a step at time `now`.
    pub open spec fn tickable(self, stage: int, slot: int, now: u64) -> bool {
        &&& 1 <= stage < self.sink()
        &&& 0 <= slot < self.stage(stage).works.len()
        &&& self.stage(stage).works[slot].phase is Running
        &&& is_due(self.stage(stage).works[slot], now)
    }

    /// The action can be taken at time `now`.
    pub open spec fn enabled(self, a: Action, now: u64) -> bool {
        match a {
            Action::Admit { stage, slot } => self.admissible(stage as int, slot as int),
            Action::Start { stage, slot } => self.startable(stage as int, slot as int),
            Action::Tick { stage, slot } => self.tickable(stage as int, slot as int, now),
            Action::Wait { until } => true,
            Action::Finish => true,
        }
    }

    /// The unit that an admission into stage `stage` moves.
    pub open spec fn admitted_id(self, stage: int, slot: int) -> u32 {
        if stage == 1 {
            self.next_id as u32
        } else {
            self.stage(stage - 1).works[slot].unit.id
        }
    }

    /// The filter at `stage` drops the unit at `slot` when that unit makes
    /// its last step on `draw`.
    pub open spec fn drops(self, stage: int, slot: int, draw: u32) -> bool {
        let st = self.stage(stage);
        match st.works[slot].phase {
            Phase::Running { ticks, interval, deadline } => {
                &&& ticks + 1 >= TICKS
                &&& st.config.kind is Filter
                &&& !spec_retains(st.config.ratio, draw)
            },
            _ => false,
        }
    }

    /// The events that the action emits, in order.
    pub open spec fn emitted(self, a: Action, draw: u32) -> Seq<StreamUpdate> {
        match a {
            Action::Admit { stage, slot } => {
                let id = self.admitted_id(stage as int, slot as int);
                let made = if stage == 1 {
                    seq![spec_created(id)]
                } else {
                    Seq::<StreamUpdate>::empty()
                };
                let moved = made.push(spec_advanced(id, (stage - 1) as u32, stage as u32));
                if stage == self.sink() {
                    moved
                } else {
                    moved.push(spec_pending(id, stage as u32))
                }
            },
            Action::Start { stage, slot } => {
                seq![spec_progressed(self.stage(stage as int).works[slot as int].unit.id, 0)]
            },
            Action::Tick { stage, slot } => {
                let w = self.stage(stage as int).works[slot as int];
                match w.phase {
                    Phase::Running { ticks, interval, deadline } => {
                        let step = seq![spec_progressed(w.unit.id, (ticks + 1) as u32)];
                        if self.drops(stage as int, slot as int, draw) {
                            step.push(spec_rejected(w.unit.id))
                        } else {
                            step
                        }
                    },
                    _ => Seq::<StreamUpdate>::empty(),
                }
            },
            Action::Wait { until } => Seq::<StreamUpdate>::empty(),
            Action::Finish => Seq::<StreamUpdate>::empty(),
        }
    }

    /// The stages and the source after the action, at time `now`.
    pub open spec fn moved(self, a: Action, now: u64, draw: u32) -> EngineState {
        match a {
            Action::Admit { stage, slot } => {
                let id = self.admitted_id(stage as int, slot as int);
                let taken = if stage == 1 {
                    EngineState {
                        size: self.size,
                        next_id: self.next_id + 1,
                        stages: self.stages,
                        history: self.history,
                    }
                } else {
                    self.with_works(
                        stage - 1,
                        self.stage(stage - 1).works.remove(slot as int),
                    )
                };
                if stage == self.sink() {
                    taken
                } else {
                    taken.with_works(
                        stage as int,
                        taken.stage(stage as int).works.push(
                            Work {
                                unit: StreamedUnit { id, block_id: stage as u32 },
                                phase: Phase::Admitted,
                            },
                        ),
                    )
                }
            },
            Action::Start { stage, slot } => {
                let st = self.stage(stage as int);
                let w = st.works[slot as int];
                let interval = (st.config.duration.spec_jittered(draw) / (TICKS as u64)) as u64;
                self.with_works(
                    stage as int,
                    st.works.update(
                        slot as int,
                        Work {
                            unit: w.unit,
                            phase: Phase::Running {
                                ticks: 0,
                                interval,
                                deadline: spec_later(now, interval),
                            },
                        },
                    ),
                )
            },
            Action::Tick { stage, slot } => {
                let st = self.stage(stage as int);
                let w = st.works[slot as int];
                match w.phase {
                    Phase::Running { ticks, interval, deadline } => {
                        if ticks + 1 < TICKS {
                            self.with_works(
                                stage as int,
                                st.works.update(
                                    slot as int,
                                    Work {
                                        unit: w.unit,
                                        phase: Phase::Running {
                                            ticks: (ticks + 1) as u32,
                                            interval,
                                            deadline: spec_later(now, interval),
                                        },
                                    },
                                ),
                            )
                        } else if self.drops(stage as int, slot as int, draw) {
                            self.with_works(stage as int, st.works.remove(slot as int))
                        } else {
                            self.with_works(
                                stage as int,
                                st.works.update(
                                    slot as int,
                                    Work { unit: w.unit, phase: Phase::Complete },
                                ),
                            )
                        }
                    },
                    _ => self,
                }
            },
            Action::Wait { until } => self,
            Action::Finish => self,
        }
    }

    /// The state after the action: the stages as [`Self::moved`] gives them,
    /// and the history extended by what [`Self::emitted`] gives.
    pub open spec fn applied(self, a: Action, now: u64, draw: u32) -> EngineState {
        let next = self.moved(a, now, draw);
        EngineState {
            size: next.size,
            next_id: next.next_id,
            stages: next.stages,
            history: self.history + self.emitted(a, draw),
        }
    }

    /// The state after one step at time `now` with the draw `draw`.
    pub open spec fn stepped(self, now: u64, draw: u32) -> EngineState {
        self.applied(self.next_action(now), now, draw)
    }

    /// The state after the steps of `schedule`, each at a time and with a
    /// draw.
    pub open spec fn after(self, schedule: Seq<(u64, u32)>) -> EngineState
        decreases schedule.len(),
    {
        if schedule.len() == 0 {
            self
        } else {
            self.after(schedule.drop_last()).stepped(schedule.last().0, schedule.last().1)
        }
    }

    /// The action that the last step of `schedule` takes.
    pub open spec fn last_action(self, schedule: Seq<(u64, u32)>) -> Action
        recommends
            schedule.len() > 0,
    {
        self.after(schedule.drop_last()).next_action(schedule.last().0)
    }

    /// No step of `schedule` comes early: one that follows a wait comes at
    /// or after the time waited for.
    pub open spec fn punctual(self, schedule: Seq<(u64, u32)>) -> bool
        decreases schedule.len(),
    {
        schedule.len() > 0 ==> {
            &&& self.punctual(schedule.drop_last())
            &&& schedule.len() > 1 ==> match self.last_action(schedule.drop_last()) {
                Action::Wait { until } => schedule.last().0 >= until,
                _ => true,
            }
        }
    }

    /// The clock after a step at time `now`: a wait moves it to the time
    /// waited for, nothing else moves it.
    pub open spec fn clock_after(self, now: u64) -> u64 {
        match self.next_action(now) {
            Action::Wait { until } => until,
            _ => now,
        }
    }

    /// The state and the clock after a run that starts at time `start` and
    /// makes one step per draw, with a clock that jumps over every wait.
    pub open spec fn ran(self, start: u64, draws: Seq<u32>) -> (EngineState, u64)
        decreases draws.len(),
    {
        if draws.len() == 0 {
            (self, start)
        } else {
            let before = self.ran(start, draws.drop_last());
            (before.0.stepped(before.1, draws.last()), before.0.clock_after(before.1))
        }
    }

    /// The shape that every state of a pipeline has: identifiers fit their
    /// type, no stage holds more than its capacity, a filter holds one unit
    /// at most, every unit carries the identifier of the stage that holds
    /// it, and a running work has steps left.
    pub open spec fn wf(self) -> bool {
        &&& self.next_id <= self.size <= u32::MAX
        &&& self.stages.len() + 1 <= u32::MAX
        &&& forall|j: int| 0 <= j < self.stages.len() ==> self.stage_wf(j)
    }

    /// What holds of every state that a pipeline reaches: the state is well
    /// formed, and the events emitted so far fit it.
    pub open spec fn inv(self) -> bool {
        self.wf() && self.traced() && self.bounded_throughout()
    }

    /// The stage at position `j` is well formed.
    pub open spec fn stage_wf(self, j: int) -> bool {
        let st = self.stages[j];
        &&& config_wf(st.config)
        &&& st.works.len() <= st.config.capacity
        &&& forall|i: int| 0 <= i < st.works.len() ==> work_wf(#[trigger] st.works[i], j + 1, self.next_id)
    }
}

/// A stage can be built from the configuration: it has room for a unit, and
/// a filter holds one unit and has a ratio of at most one.
pub open spec fn config_wf(c: StageConfig) -> bool {
    &&& 1 <= c.capacity
    &&& c.kind is Filter ==> c.capacity == 1 && c.ratio <= 1000
}

/// The work belongs to stage `stage` of a pipeline that has made `made`
/// units.
pub open spec fn work_wf(w: Work, stage: int, made: nat) -> bool {
    &&& w.unit.block_id == stage
    &&& w.unit.id < made
    &&& match w.phase {
        Phase::Running { ticks, interval, deadline } => ticks < TICKS,
        _ => true,
    }
}

} // verus!
