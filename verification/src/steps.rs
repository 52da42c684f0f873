//! What holds of every decision and of every step of the state machine.

use vstd::prelude::*;
use crate::bounds::{lemma_applied_bounded, lemma_initial_bounded};
use crate::model::{
    Action, EngineState, Pull, StageConfig, Work, config_wf, earliest, first_complete, first_due,
    is_due, work_wf,
};
use crate::preservation::{
    lemma_initial_traced, lemma_move_traced, lemma_start_traced, lemma_tick_traced,
};

verus! {

/// The position that [`first_due`] gives is in range and due, and no work
/// before it is.
pub proof fn lemma_first_due(works: Seq<Work>, now: u64, from: int)
    requires
        0 <= from,
    ensures
        match first_due(works, now, from) {
            Some(i) => {
                &&& from <= i < works.len()
                &&& is_due(works[i], now)
                &&& forall|j: int| from <= j < i ==> !is_due(#[trigger] works[j], now)
            },
            None => forall|j: int| from <= j < works.len() ==> !is_due(#[trigger] works[j], now),
        },
    decreases works.len() - from,
{
    if from < works.len() && !is_due(works[from], now) {
        lemma_first_due(works, now, from + 1);
    }
}

/// The position that [`first_complete`] gives is in range and finished, and
/// no work before it is.
pub proof fn lemma_first_complete(works: Seq<Work>, from: int)
    requires
        0 <= from,
    ensures
        match first_complete(works, from) {
            Some(i) => {
                &&& from <= i < works.len()
                &&& works[i].phase is Complete
                &&& forall|j: int| from <= j < i ==> !((#[trigger] works[j]).phase is Complete)
            },
            None => forall|j: int|
                from <= j < works.len() ==> !((#[trigger] works[j]).phase is Complete),
        },
    decreases works.len() - from,
{
    if from < works.len() && !(works[from].phase is Complete) {
        lemma_first_complete(works, from + 1);
    }
}

/// What a stage answers can be acted on: an action that it names is enabled
/// and lies at or before the stage, and a unit that it offers can be taken.
pub proof fn lemma_pull_sound(s: EngineState, k: int, now: u64)
    requires
        s.wf(),
        0 <= k <= s.stages.len(),
    ensures
        match s.pull(k, now) {
            Pull::Act(a) => s.enabled(a, now) && !(a is Wait) && !(a is Finish),
            Pull::Ready(i) => s.can_take(k, i as int),
            _ => true,
        },
    decreases k,
{
    if k > 0 {
        let st = s.stage(k);
        assert(s.stage_wf(k - 1));
        lemma_first_complete(st.works, 0);
        lemma_first_due(st.works, now, 0);
        if st.ready() is None {
            if st.has_room() {
                lemma_pull_sound(s, k - 1, now);
            }
        }
    }
}

/// The action that [`EngineState::next_action`] names is enabled.
pub proof fn lemma_next_action_enabled(s: EngineState, now: u64)
    requires
        s.wf(),
    ensures
        s.enabled(s.next_action(now), now),
{
    lemma_pull_sound(s, s.stages.len() as int, now);
}

/// An enabled action leaves the state well formed.
pub proof fn lemma_applied_wf(s: EngineState, a: Action, now: u64, draw: u32)
    requires
        s.wf(),
        s.enabled(a, now),
    ensures
        s.applied(a, now, draw).wf(),
{
    let t = s.applied(a, now, draw);
    assert(t.stages.len() == s.stages.len());
    assert forall|j: int| 0 <= j < t.stages.len() implies t.stage_wf(j) by {
        assert(s.stage_wf(j));
        let works = s.stages[j].works;
        assert forall|i: int| 0 <= i < t.stages[j].works.len() implies work_wf(
            #[trigger] t.stages[j].works[i],
            j + 1,
            t.next_id,
        ) by {
            // The work that stood at `i` before the action, where one did.
            let moved_up = match a {
                Action::Admit { stage, slot } => j == stage - 2 && i >= slot,
                Action::Tick { stage, slot } => j == stage - 1 && i >= slot && s.drops(
                    stage as int,
                    slot as int,
                    draw,
                ),
                _ => false,
            };
            let before = if moved_up {
                i + 1
            } else {
                i
            };
            if before < works.len() {
                assert(work_wf(works[before], j + 1, s.next_id));
            } else if let Action::Admit { stage, slot } = a {
                if stage > 1 {
                    assert(s.stage_wf(stage - 2));
                    assert(work_wf(s.stages[stage - 2].works[slot as int], stage - 1, s.next_id));
                }
            }
        }
    }
}

/// The initial state of a pipeline with well-formed stages has the
/// invariant.
pub proof fn lemma_initial_inv(size: nat, configs: Seq<StageConfig>)
    requires
        size <= u32::MAX,
        configs.len() + 1 <= u32::MAX,
        forall|j: int| 0 <= j < configs.len() ==> config_wf(#[trigger] configs[j]),
    ensures
        EngineState::initial(size, configs).inv(),
{
    let s = EngineState::initial(size, configs);
    assert forall|j: int| 0 <= j < s.stages.len() implies s.stage_wf(j) by {
        assert(config_wf(configs[j]));
    }
    lemma_initial_traced(size, configs);
    lemma_initial_bounded(size, configs);
}

/// An enabled action keeps the invariant.
pub proof fn lemma_applied_inv(s: EngineState, a: Action, now: u64, draw: u32)
    requires
        s.inv(),
        s.enabled(a, now),
    ensures
        s.applied(a, now, draw).inv(),
{
    lemma_applied_wf(s, a, now, draw);
    match a {
        Action::Admit { stage, slot } => lemma_move_traced(s, stage, slot, now, draw),
        Action::Start { stage, slot } => lemma_start_traced(s, stage, slot, now, draw),
        Action::Tick { stage, slot } => lemma_tick_traced(s, stage, slot, now, draw),
        Action::Wait { until } => {
            assert(s.applied(a, now, draw).history =~= s.history);
        },
        Action::Finish => {
            assert(s.applied(a, now, draw).history =~= s.history);
        },
    }
    lemma_applied_bounded(s, a, now, draw);
}

/// A step keeps the invariant.
pub proof fn lemma_stepped_inv(s: EngineState, now: u64, draw: u32)
    requires
        s.inv(),
    ensures
        s.stepped(now, draw).inv(),
{
    lemma_next_action_enabled(s, now);
    lemma_applied_inv(s, s.next_action(now), now, draw);
}

/// Whatever the times and the draws, a run keeps the invariant.
pub proof fn lemma_after_inv(s: EngineState, schedule: Seq<(u64, u32)>)
    requires
        s.inv(),
    ensures
        s.after(schedule).inv(),
    decreases schedule.len(),
{
    if schedule.len() > 0 {
        lemma_after_inv(s, schedule.drop_last());
        lemma_stepped_inv(s.after(schedule.drop_last()), schedule.last().0, schedule.last().1);
    }
}

/// A stage says that no unit will ever come exactly when the source is
/// exhausted and the stage and all stages before it are empty.
pub proof fn lemma_done_iff_empty(s: EngineState, k: int, now: u64)
    requires
        s.wf(),
        0 <= k <= s.stages.len(),
    ensures
        s.pull(k, now) is Done <==> s.next_id >= s.size && forall|j: int|
            0 <= j < k ==> (#[trigger] s.stages[j]).works.len() == 0,
    decreases k,
{
    if k > 0 {
        let st = s.stage(k);
        assert(s.stage_wf(k - 1));
        lemma_done_iff_empty(s, k - 1, now);
        lemma_first_complete(st.works, 0);
        lemma_first_due(st.works, now, 0);
        if st.works.len() > 0 {
            assert(s.stages[k - 1].works.len() > 0);
        }
    }
}

/// No deadline among works that are not due has passed.
pub proof fn lemma_earliest_is_later(works: Seq<Work>, now: u64, from: int)
    requires
        0 <= from,
        forall|j: int| from <= j < works.len() ==> !is_due(#[trigger] works[j], now),
    ensures
        earliest(works, from) > now || earliest(works, from) == u64::MAX,
    decreases works.len() - from,
{
    if from < works.len() {
        assert(!is_due(works[from], now));
        lemma_earliest_is_later(works, now, from + 1);
    }
}

/// A stage that has nothing to do names a time that has not passed.
pub proof fn lemma_pending_is_later(s: EngineState, k: int, now: u64)
    requires
        s.wf(),
        0 <= k <= s.stages.len(),
    ensures
        match s.pull(k, now) {
            Pull::Pending(until) => until > now || until == u64::MAX,
            _ => true,
        },
    decreases k,
{
    if k > 0 {
        let st = s.stage(k);
        lemma_first_due(st.works, now, 0);
        if st.ready() is None {
            if st.has_room() {
                lemma_pending_is_later(s, k - 1, now);
            }
            if first_due(st.works, now, 0) is None {
                lemma_earliest_is_later(st.works, now, 0);
            }
        }
    }
}

/// The pipeline never waits for a time that has passed.
pub proof fn lemma_wait_is_later(s: EngineState, now: u64)
    requires
        s.wf(),
    ensures
        match s.next_action(now) {
            Action::Wait { until } => until > now || until == u64::MAX,
            _ => true,
        },
{
    lemma_pending_is_later(s, s.stages.len() as int, now);
    lemma_pull_sound(s, s.stages.len() as int, now);
}

/// A run keeps the invariant.
pub proof fn lemma_ran_inv(s: EngineState, start: u64, draws: Seq<u32>)
    requires
        s.inv(),
    ensures
        s.ran(start, draws).0.inv(),
    decreases draws.len(),
{
    if draws.len() > 0 {
        lemma_ran_inv(s, start, draws.drop_last());
        let before = s.ran(start, draws.drop_last());
        lemma_stepped_inv(before.0, before.1, draws.last());
    }
}

/// A step changes neither the size of the source nor the number of stages.
pub proof fn lemma_ran_keeps_shape(s: EngineState, start: u64, draws: Seq<u32>)
    requires
        s.inv(),
    ensures
        s.ran(start, draws).0.size == s.size,
        s.ran(start, draws).0.stages.len() == s.stages.len(),
    decreases draws.len(),
{
    if draws.len() > 0 {
        lemma_ran_keeps_shape(s, start, draws.drop_last());
        lemma_ran_inv(s, start, draws.drop_last());
        let before = s.ran(start, draws.drop_last());
        lemma_next_action_enabled(before.0, before.1);
    }
}

/// The pipeline finishes exactly when it is drained.
pub proof fn lemma_finish_iff_drained(s: EngineState, now: u64)
    requires
        s.wf(),
    ensures
        s.next_action(now) is Finish <==> s.drained(),
{
    lemma_done_iff_empty(s, s.stages.len() as int, now);
    lemma_pull_sound(s, s.stages.len() as int, now);
}

} // verus!
