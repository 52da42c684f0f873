//! The executable pipeline: the state machine of [`crate::model`] on
//! vectors.
//!
//! The engine owns no clock and no channel. A driver asks it what to do at
//! the current time, hands the emitted events to whoever listens, and sleeps
//! when the engine says that nothing can happen before a given time.

use vstd::prelude::*;
use crate::events::{
    StreamUpdate, StreamedUnit, TICKS, advanced, created, pending, progressed, rejected,
};
use crate::jitter::{random_draw, retains};
use crate::model::{
    Action, EngineState, Phase, Pull, StageConfig, StageKind, StageState, Work, config_wf,
    earliest, first_complete, first_due,
};
use crate::progress::{lemma_run_drains, potential};
use crate::steps::{
    lemma_applied_inv, lemma_finish_iff_drained, lemma_initial_inv, lemma_next_action_enabled,
    lemma_wait_is_later,
};

verus! {

/// One stage of a running pipeline.
pub struct Stage {
    pub(crate) config: StageConfig,
    pub(crate) works: Vec<Work>,
}

impl View for Stage {
    type V = StageState;

    closed spec fn view(&self) -> StageState {
        StageState { config: self.config, works: self.works@ }
    }
}

/// A pipeline from its source to its sink.
pub struct Engine {
    pub(crate) size: u32,
    pub(crate) next_id: u32,
    pub(crate) stages: Vec<Stage>,
    pub(crate) history: Ghost<Seq<StreamUpdate>>,
}

impl View for Engine {
    type V = EngineState;

    closed spec fn view(&self) -> EngineState {
        EngineState {
            size: self.size as nat,
            next_id: self.next_id as nat,
            stages: Seq::new(self.stages@.len(), |j: int| self.stages@[j]@),
            history: self.history@,
        }
    }
}

/// What one step did: the action taken and the events that it emitted.
pub struct Step {
    pub action: Action,
    pub events: Vec<StreamUpdate>,
}

/// What a run did: the events that it emitted, the time on its clock at the
/// end, and whether it drained the pipeline.
pub struct Run {
    pub events: Vec<StreamUpdate>,
    pub now: u64,
    pub finished: bool,
}

/// Position of the first work that can make a step at time `now`.
fn scan_due(works: &Vec<Work>, now: u64) -> (r: Option<usize>)
    ensures
        match r {
            Some(i) => i < works@.len() && first_due(works@, now, 0) == Some(i as int),
            None => first_due(works@, now, 0) is None,
        },
{
    let mut i: usize = 0;
    while i < works.len()
        invariant
            i <= works.len(),
            first_due(works@, now, 0) == first_due(works@, now, i as int),
        decreases works.len() - i,
    {
        let due = match works[i].phase {
            Phase::Admitted => true,
            Phase::Running { deadline, .. } => deadline <= now,
            Phase::Complete => false,
        };
        if due {
            return Some(i);
        }
        i = i + 1;
    }
    None
}

/// Position of the first finished work.
fn scan_complete(works: &Vec<Work>) -> (r: Option<usize>)
    ensures
        match r {
            Some(i) => i < works@.len() && first_complete(works@, 0) == Some(i as int),
            None => first_complete(works@, 0) is None,
        },
{
    let mut i: usize = 0;
    while i < works.len()
        invariant
            i <= works.len(),
            first_complete(works@, 0) == first_complete(works@, i as int),
        decreases works.len() - i,
    {
        match works[i].phase {
            Phase::Complete => {
                return Some(i);
            },
            _ => {},
        }
        i = i + 1;
    }
    None
}

/// The earliest deadline among the running works.
fn scan_earliest(works: &Vec<Work>) -> (r: u64)
    ensures
        r == earliest(works@, 0),
{
    let mut i: usize = works.len();
    let mut best: u64 = u64::MAX;
    while i > 0
        invariant
            i <= works.len(),
            best == earliest(works@, i as int),
        decreases i,
    {
        i = i - 1;
        match works[i].phase {
            Phase::Running { deadline, .. } => {
                if deadline < best {
                    best = deadline;
                }
            },
            _ => {},
        }
    }
    best
}

impl Engine {
    /// What holds of every pipeline, whatever it has done so far.
    pub open spec fn inv(&self) -> bool {
        self@.inv()
    }

    /// A pipeline of `size` units through the given stages, with nothing
    /// done yet.
    pub(crate) fn new(size: u32, configs: &Vec<StageConfig>) -> (e: Engine)
        requires
            configs@.len() + 1 <= u32::MAX,
            forall|j: int| 0 <= j < configs@.len() ==> config_wf(#[trigger] configs@[j]),
        ensures
            e@ == EngineState::initial(size as nat, configs@),
            e.inv(),
    {
        let mut stages: Vec<Stage> = Vec::new();
        let mut j: usize = 0;
        while j < configs.len()
            invariant
                j <= configs@.len(),
                stages@.len() == j,
                forall|i: int|
                    0 <= i < j ==> (#[trigger] stages@[i])@ == (StageState {
                        config: configs@[i],
                        works: Seq::<Work>::empty(),
                    }),
            decreases configs@.len() - j,
        {
            stages.push(Stage { config: configs[j], works: Vec::new() });
            j = j + 1;
        }
        let e = Engine { size, next_id: 0, stages, history: Ghost(Seq::empty()) };
        proof {
            assert(e@.stages =~= EngineState::initial(size as nat, configs@).stages);
            lemma_initial_inv(size as nat, configs@);
        }
        e
    }

    /// Number of units that the source produces in all.
    pub fn size(&self) -> (n: u32)
        ensures
            n == self@.size,
    {
        self.size
    }

    /// Number of units that the source has produced so far.
    pub fn created(&self) -> (n: u32)
        ensures
            n == self@.next_id,
    {
        self.next_id
    }

    /// Identifier of the sink.
    pub fn sink_id(&self) -> (id: u32)
        requires
            self.inv(),
        ensures
            id == self@.sink(),
    {
        (self.stages.len() + 1) as u32
    }

    /// Number of units that stage `stage` holds.
    pub fn in_flight(&self, stage: u32) -> (n: usize)
        ensures
            1 <= stage < self@.sink() ==> n == self@.stage(stage as int).works.len(),
            !(1 <= stage < self@.sink()) ==> n == 0,
    {
        let k: usize = stage as usize;
        if 1 <= k && k <= self.stages.len() {
            self.stages[k - 1].works.len()
        } else {
            0
        }
    }

    /// The source is exhausted and every stage is empty.
    pub fn is_finished(&self) -> (done: bool)
        ensures
            done == self@.drained(),
    {
        if self.next_id < self.size {
            return false;
        }
        let mut j: usize = 0;
        while j < self.stages.len()
            invariant
                j <= self.stages@.len(),
                forall|i: int| 0 <= i < j ==> (#[trigger] self@.stages[i]).works.len() == 0,
            decreases self.stages@.len() - j,
        {
            if self.stages[j].works.len() > 0 {
                assert(self@.stages[j as int].works.len() > 0);
                return false;
            }
            j = j + 1;
        }
        true
    }

    /// What stage `k` answers at time `now` when it is asked for a unit.
    fn pull(&self, k: usize, now: u64) -> (p: Pull)
        requires
            self@.wf(),
            k <= self.stages@.len(),
        ensures
            p == self@.pull(k as int, now),
        decreases k,
    {
        if k == 0 {
            if self.next_id < self.size {
                Pull::Ready(0)
            } else {
                Pull::Done
            }
        } else {
            let stage = &self.stages[k - 1];
            assert(stage@ == self@.stage(k as int));
            assert(self@.stage_wf(k - 1));
            let ready: Option<usize> = match stage.config.kind {
                StageKind::Unordered => scan_complete(&stage.works),
                _ => {
                    if stage.works.len() > 0 {
                        match stage.works[0].phase {
                            Phase::Complete => Some(0),
                            _ => None,
                        }
                    } else {
                        None
                    }
                },
            };
            match ready {
                Some(i) => Pull::Ready(i),
                None => {
                    let up = if stage.works.len() < stage.config.capacity {
                        self.pull(k - 1, now)
                    } else {
                        Pull::Pending(u64::MAX)
                    };
                    match up {
                        Pull::Act(a) => Pull::Act(a),
                        Pull::Ready(i) => Pull::Act(Action::Admit { stage: k, slot: i }),
                        _ => {
                            match scan_due(&stage.works, now) {
                                Some(i) => {
                                    match stage.works[i].phase {
                                        Phase::Admitted => Pull::Act(
                                            Action::Start { stage: k, slot: i },
                                        ),
                                        _ => Pull::Act(Action::Tick { stage: k, slot: i }),
                                    }
                                },
                                None => {
                                    let upstream_done = match up {
                                        Pull::Done => true,
                                        _ => false,
                                    };
                                    if stage.works.len() == 0 && upstream_done {
                                        Pull::Done
                                    } else {
                                        let wake: u64 = match up {
                                            Pull::Pending(until) => until,
                                            _ => u64::MAX,
                                        };
                                        let own: u64 = scan_earliest(&stage.works);
                                        if wake < own {
                                            Pull::Pending(wake)
                                        } else {
                                            Pull::Pending(own)
                                        }
                                    }
                                },
                            }
                        },
                    }
                },
            }
        }
    }

    /// What a pull of the sink does at time `now`. Nothing changes.
    pub fn next_action(&self, now: u64) -> (a: Action)
        requires
            self.inv(),
        ensures
            a == self@.next_action(now),
            self@.enabled(a, now),
            a is Finish <==> self@.drained(),
            a matches Action::Wait { until } ==> until > now || until == u64::MAX,
    {
        proof {
            lemma_next_action_enabled(self@, now);
            lemma_finish_iff_drained(self@, now);
            lemma_wait_is_later(self@, now);
        }
        match self.pull(self.stages.len(), now) {
            Pull::Act(a) => a,
            Pull::Ready(i) => Action::Admit { stage: self.stages.len() + 1, slot: i },
            Pull::Pending(until) => Action::Wait { until },
            Pull::Done => Action::Finish,
        }
    }

    /// Stage `stage` takes a unit from the stage before it.
    fn take_in(&mut self, stage: usize, slot: usize) -> (events: Vec<StreamUpdate>)
        requires
            old(self)@.wf(),
            old(self)@.admissible(stage as int, slot as int),
        ensures
            events@ == old(self)@.emitted(Action::Admit { stage, slot }, 0),
            final(self)@.stages == old(self)@.moved(Action::Admit { stage, slot }, 0, 0).stages,
            final(self)@.next_id == old(self)@.moved(Action::Admit { stage, slot }, 0, 0).next_id,
            final(self)@.size == old(self)@.size,
            final(self)@.history == old(self)@.history,
    {
        let ghost before = self@;
        let mut events: Vec<StreamUpdate> = Vec::new();
        let id: u32;
        if stage == 1 {
            id = self.next_id;
            self.next_id = self.next_id + 1;
            events.push(created(id));
        } else {
            assert(before.stage_wf(stage - 2));
            let w = self.stages[stage - 2].works.remove(slot);
            id = w.unit.id;
        }
        events.push(advanced(id, (stage - 1) as u32, stage as u32));
        if stage <= self.stages.len() {
            self.stages[stage - 1].works.push(
                Work { unit: StreamedUnit { id, block_id: stage as u32 }, phase: Phase::Admitted },
            );
            events.push(pending(id, stage as u32));
        }
        proof {
            let after = before.moved(Action::Admit { stage, slot }, 0, 0);
            assert(events@ =~= before.emitted(Action::Admit { stage, slot }, 0));
            assert(self@.stages.len() == after.stages.len());
            assert forall|j: int| 0 <= j < after.stages.len() implies self@.stages[j]
                == after.stages[j] by {
                assert(self@.stages[j].works =~= after.stages[j].works);
            }
            assert(self@.stages =~= after.stages);
        }
        events
    }

    /// The work at `slot` of stage `stage` starts.
    fn start(&mut self, stage: usize, slot: usize, now: u64, draw: u32) -> (events: Vec<
        StreamUpdate,
    >)
        requires
            old(self)@.wf(),
            old(self)@.startable(stage as int, slot as int),
        ensures
            events@ == old(self)@.emitted(Action::Start { stage, slot }, draw),
            final(self)@.stages == old(self)@.moved(
                Action::Start { stage, slot },
                now,
                draw,
            ).stages,
            final(self)@.next_id == old(self)@.next_id,
            final(self)@.size == old(self)@.size,
            final(self)@.history == old(self)@.history,
    {
        let ghost before = self@;
        let mut events: Vec<StreamUpdate> = Vec::new();
        let unit = self.stages[stage - 1].works[slot].unit;
        let interval: u64 = self.stages[stage - 1].config.duration.jittered(draw) / (TICKS as u64);
        let deadline: u64 = now.saturating_add(interval);
        self.stages[stage - 1].works[slot] = Work {
            unit,
            phase: Phase::Running { ticks: 0, interval, deadline },
        };
        events.push(progressed(unit.id, 0));
        proof {
            let after = before.moved(Action::Start { stage, slot }, now, draw);
            assert(events@ =~= before.emitted(Action::Start { stage, slot }, draw));
            assert(self@.stages.len() == after.stages.len());
            assert forall|j: int| 0 <= j < after.stages.len() implies self@.stages[j]
                == after.stages[j] by {
                assert(self@.stages[j].works =~= after.stages[j].works);
            }
            assert(self@.stages =~= after.stages);
        }
        events
    }

    /// The work at `slot` of stage `stage` makes its next step.
    fn tick(&mut self, stage: usize, slot: usize, now: u64, draw: u32) -> (events: Vec<
        StreamUpdate,
    >)
        requires
            old(self)@.wf(),
            old(self)@.tickable(stage as int, slot as int, now),
        ensures
            events@ == old(self)@.emitted(Action::Tick { stage, slot }, draw),
            final(self)@.stages == old(self)@.moved(Action::Tick { stage, slot }, now, draw).stages,
            final(self)@.next_id == old(self)@.next_id,
            final(self)@.size == old(self)@.size,
            final(self)@.history == old(self)@.history,
    {
        let ghost before = self@;
        assert(before.stage_wf(stage - 1));
        let mut events: Vec<StreamUpdate> = Vec::new();
        let work = self.stages[stage - 1].works[slot];
        let config = self.stages[stage - 1].config;
        match work.phase {
            Phase::Running { ticks, interval, .. } => {
                let done: u32 = ticks + 1;
                events.push(progressed(work.unit.id, done));
                if done < TICKS {
                    let deadline: u64 = now.saturating_add(interval);
                    self.stages[stage - 1].works[slot] = Work {
                        unit: work.unit,
                        phase: Phase::Running { ticks: done, interval, deadline },
                    };
                } else {
                    let keep = match config.kind {
                        StageKind::Filter => retains(config.ratio, draw),
                        _ => true,
                    };
                    if keep {
                        self.stages[stage - 1].works[slot] = Work {
                            unit: work.unit,
                            phase: Phase::Complete,
                        };
                    } else {
                        self.stages[stage - 1].works.remove(slot);
                        events.push(rejected(work.unit.id));
                    }
                }
            },
            _ => {},
        }
        proof {
            let after = before.moved(Action::Tick { stage, slot }, now, draw);
            assert(events@ =~= before.emitted(Action::Tick { stage, slot }, draw));
            assert(self@.stages.len() == after.stages.len());
            assert forall|j: int| 0 <= j < after.stages.len() implies self@.stages[j]
                == after.stages[j] by {
                assert(self@.stages[j].works =~= after.stages[j].works);
            }
            assert(self@.stages =~= after.stages);
        }
        events
    }

    /// Takes the action that [`Self::next_action`] names at time `now`, with
    /// `draw` for the decision that the action may need: the duration of a
    /// work that starts, or whether a filter keeps a unit whose work ends.
    pub fn step(&mut self, now: u64, draw: u32) -> (r: Step)
        requires
            old(self).inv(),
        ensures
            final(self).inv(),
            r.action == old(self)@.next_action(now),
            r.events@ == old(self)@.emitted(r.action, draw),
            final(self)@ == old(self)@.applied(r.action, now, draw),
            final(self)@ == old(self)@.stepped(now, draw),
            r.action is Finish <==> old(self)@.drained(),
            r.action matches Action::Wait { until } ==> until > now || until == u64::MAX,
    {
        let ghost before = self@;
        let action = self.next_action(now);
        let events = match action {
            Action::Admit { stage, slot } => self.take_in(stage, slot),
            Action::Start { stage, slot } => self.start(stage, slot, now, draw),
            Action::Tick { stage, slot } => self.tick(stage, slot, now, draw),
            Action::Wait { .. } => Vec::new(),
            Action::Finish => Vec::new(),
        };
        proof {
            assert(events@ =~= before.emitted(action, draw));
            self.history@ = self.history@ + events@;
            lemma_applied_inv(before, action, now, draw);
            assert(self@.stages =~= before.applied(action, now, draw).stages);
        }
        Step { action, events }
    }

    /// Runs the pipeline on a clock of its own that starts at `start` and
    /// jumps over every wait: one step for each of `draws`, in order. With
    /// two draws for every step that is left to do, and two more, the run
    /// drains the pipeline.
    pub fn run(&mut self, start: u64, draws: &Vec<u32>) -> (r: Run)
        requires
            old(self).inv(),
        ensures
            final(self).inv(),
            final(self)@ == old(self)@.ran(start, draws@).0,
            r.now == old(self)@.ran(start, draws@).1,
            final(self)@.history == old(self)@.history + r.events@,
            r.finished == final(self)@.drained(),
            draws@.len() >= 2 * potential(old(self)@) + 2 ==> r.finished,
    {
        let ghost before = self@;
        let mut events: Vec<StreamUpdate> = Vec::new();
        let mut now: u64 = start;
        let mut i: usize = 0;
        proof {
            if draws@.len() >= 2 * potential(before) + 2 {
                lemma_run_drains(before, start, draws@);
            }
            assert(draws@.take(0) =~= Seq::<u32>::empty());
            assert(before.history + events@ =~= before.history);
        }
        while i < draws.len()
            invariant
                i <= draws@.len(),
                self.inv(),
                (self@, now) == before.ran(start, draws@.take(i as int)),
                self@.history == before.history + events@,
            decreases draws@.len() - i,
        {
            let ghost prefix = self@.history;
            let ghost seen = events@;
            let mut step = self.step(now, draws[i]);
            match step.action {
                Action::Wait { until } => {
                    now = until;
                },
                _ => {},
            }
            events.append(&mut step.events);
            proof {
                assert(draws@.take(i + 1).drop_last() =~= draws@.take(i as int));
                assert(self@.history =~= before.history + events@);
            }
            i = i + 1;
        }
        proof {
            assert(draws@.take(i as int) =~= draws@);
        }
        let finished = self.is_finished();
        Run { events, now, finished }
    }

    /// Takes one step at time `now` with a fresh random draw.
    pub fn step_random(&mut self, now: u64) -> (r: Step)
        requires
            old(self).inv(),
        ensures
            final(self).inv(),
            r.action == old(self)@.next_action(now),
            exists|draw: u32|
                {
                    &&& r.events@ == old(self)@.emitted(r.action, draw)
                    &&& final(self)@ == old(self)@.stepped(now, draw)
                },
    {
        let draw: u32 = random_draw();
        self.step(now, draw)
    }
}

} // verus!
