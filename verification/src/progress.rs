//! Every pipeline drains: each step that is not a wait uses up some of the
//! work that is left, and a wait is followed by such a step.

use vstd::prelude::*;
use crate::events::{StreamedUnit, TICKS};
use crate::model::{
    Action, EngineState, Phase, Pull, StageState, Work, earliest, first_due, is_due, work_wf,
};
use crate::steps::{
    lemma_after_inv, lemma_done_iff_empty, lemma_finish_iff_drained, lemma_first_complete,
    lemma_first_due, lemma_next_action_enabled, lemma_pull_sound, lemma_ran_inv,
};

verus! {

/// The sum of the numbers.
pub open spec fn total(xs: Seq<nat>) -> nat
    decreases xs.len(),
{
    if xs.len() == 0 {
        0
    } else {
        total(xs.drop_last()) + xs.last()
    }
}

/// One more number adds itself to the sum.
proof fn lemma_total_push(xs: Seq<nat>, x: nat)
    ensures
        total(xs.push(x)) == total(xs) + x,
{
    assert(xs.push(x).drop_last() =~= xs);
}

/// A number replaced changes the sum by the difference.
proof fn lemma_total_update(xs: Seq<nat>, i: int, x: nat)
    requires
        0 <= i < xs.len(),
    ensures
        total(xs.update(i, x)) + xs[i] == total(xs) + x,
    decreases xs.len(),
{
    if i == xs.len() - 1 {
        assert(xs.update(i, x).drop_last() =~= xs.drop_last());
    } else {
        lemma_total_update(xs.drop_last(), i, x);
        assert(xs.update(i, x).drop_last() =~= xs.drop_last().update(i, x));
    }
}

/// A number removed is missing from the sum.
proof fn lemma_total_remove(xs: Seq<nat>, i: int)
    requires
        0 <= i < xs.len(),
    ensures
        total(xs.remove(i)) + xs[i] == total(xs),
    decreases xs.len(),
{
    if i == xs.len() - 1 {
        assert(xs.remove(i) =~= xs.drop_last());
    } else {
        lemma_total_remove(xs.drop_last(), i);
        assert(xs.remove(i).drop_last() =~= xs.drop_last().remove(i));
        assert(xs.remove(i).last() == xs.last());
    }
}

/// Number of steps that a unit makes from the moment at which stage `k` can
/// take it in until it has reached the sink, in a pipeline of `stages`
/// stages: into each stage, a start and the ticks there, and into the sink.
pub open spec fn passage(stages: nat, k: int) -> nat {
    if k > stages {
        1
    } else {
        ((stages + 1 - k) * (TICKS + 2) + 1) as nat
    }
}

/// Number of steps that the work has before it in stage `k`, and its unit
/// after that.
pub open spec fn remaining(w: Work, stages: nat, k: int) -> nat {
    passage(stages, k + 1) + match w.phase {
        Phase::Admitted => (TICKS + 1) as nat,
        Phase::Running { ticks, interval, deadline } => if ticks < TICKS {
            (TICKS - ticks) as nat
        } else {
            0
        },
        Phase::Complete => 0,
    }
}

/// What is left to do for each unit that stage `k` holds.
pub open spec fn stage_costs(st: StageState, stages: nat, k: int) -> Seq<nat> {
    Seq::new(st.works.len(), |i: int| remaining(st.works[i], stages, k))
}

/// What is left to do in each stage.
pub open spec fn costs(s: EngineState) -> Seq<nat> {
    Seq::new(
        s.stages.len(),
        |j: int| total(stage_costs(s.stages[j], s.stages.len(), j + 1)),
    )
}

/// Number of steps other than waits that the pipeline has before it: for
/// the units still to be made and for those that the stages hold.
pub open spec fn potential(s: EngineState) -> nat {
    ((s.size - s.next_id) * passage(s.stages.len(), 1) + total(costs(s))) as nat
}

/// Replacing the works of one stage changes what is left to do by the
/// change in that stage.
proof fn lemma_stage_replaced(s: EngineState, k: int, works: Seq<Work>)
    requires
        1 <= k <= s.stages.len(),
    ensures
        total(costs(s.with_works(k, works))) + total(
            stage_costs(s.stage(k), s.stages.len(), k),
        ) == total(costs(s)) + total(
            stage_costs(s.stage(k).with_works(works), s.stages.len(), k),
        ),
{
    let t = s.with_works(k, works);
    let x = total(stage_costs(s.stage(k).with_works(works), s.stages.len(), k));
    assert(costs(t) =~= costs(s).update(k - 1, x));
    lemma_total_update(costs(s), k - 1, x);
}

/// A step other than a wait leaves less to do.
pub proof fn lemma_step_descends(s: EngineState, a: Action, now: u64, draw: u32)
    requires
        s.wf(),
        s.enabled(a, now),
        !(a is Wait),
        !(a is Finish),
    ensures
        potential(s.applied(a, now, draw)) < potential(s),
{
    let t = s.applied(a, now, draw);
    let n = s.stages.len();
    match a {
        Action::Admit { stage, slot } => {
            let k = stage as int;
            let id = s.admitted_id(k, slot as int);
            // The stage that hands the unit over.
            let taken = if k == 1 {
                EngineState {
                    size: s.size,
                    next_id: s.next_id + 1,
                    stages: s.stages,
                    history: s.history,
                }
            } else {
                s.with_works(k - 1, s.stage(k - 1).works.remove(slot as int))
            };
            if k == 1 {
                assert(costs(taken) =~= costs(s));
                assert((s.size - s.next_id) * passage(n, 1) == (s.size - taken.next_id) * passage(
                    n,
                    1,
                ) + passage(n, 1)) by (nonlinear_arith)
                    requires
                        taken.next_id == s.next_id + 1,
                ;
            } else {
                let from = s.stage(k - 1);
                lemma_stage_replaced(s, k - 1, from.works.remove(slot as int));
                assert(stage_costs(from.with_works(from.works.remove(slot as int)), n, k - 1)
                    =~= stage_costs(from, n, k - 1).remove(slot as int));
                lemma_total_remove(stage_costs(from, n, k - 1), slot as int);
            }
            assert(potential(taken) + passage(n, k) == potential(s));
            // The stage that takes it in.
            if k == s.sink() {
                assert(t.stages == taken.stages);
                assert(potential(t) == potential(taken));
            } else {
                let w = Work {
                    unit: StreamedUnit { id, block_id: stage as u32 },
                    phase: Phase::Admitted,
                };
                let into = taken.stage(k);
                lemma_stage_replaced(taken, k, into.works.push(w));
                assert(stage_costs(into.with_works(into.works.push(w)), n, k) =~= stage_costs(
                    into,
                    n,
                    k,
                ).push(remaining(w, n, k)));
                lemma_total_push(stage_costs(into, n, k), remaining(w, n, k));
                assert(t.stages == taken.with_works(k, into.works.push(w)).stages);
                assert(potential(t) == potential(taken) + remaining(w, n, k));
                assert(remaining(w, n, k) + 1 == passage(n, k));
            }
        },
        Action::Start { stage, slot } => {
            let k = stage as int;
            let st = s.stage(k);
            let w = st.works[slot as int];
            let w2 = t.stage(k).works[slot as int];
            lemma_stage_replaced(s, k, t.stage(k).works);
            assert(t.stages == s.with_works(k, t.stage(k).works).stages);
            assert(stage_costs(t.stage(k), n, k) =~= stage_costs(st, n, k).update(
                slot as int,
                remaining(w2, n, k),
            ));
            lemma_total_update(stage_costs(st, n, k), slot as int, remaining(w2, n, k));
            assert(s.stage(k).with_works(t.stage(k).works) == t.stage(k));
        },
        Action::Tick { stage, slot } => {
            let k = stage as int;
            let st = s.stage(k);
            let w = st.works[slot as int];
            assert(s.stage_wf(k - 1));
            assert(work_wf(w, k, s.next_id));
            lemma_stage_replaced(s, k, t.stage(k).works);
            assert(t.stages == s.with_works(k, t.stage(k).works).stages);
            assert(s.stage(k).with_works(t.stage(k).works) == t.stage(k));
            match w.phase {
                Phase::Running { ticks, interval, deadline } => {
                    if ticks + 1 >= TICKS && s.drops(k, slot as int, draw) {
                        assert(stage_costs(t.stage(k), n, k) =~= stage_costs(st, n, k).remove(
                            slot as int,
                        ));
                        lemma_total_remove(stage_costs(st, n, k), slot as int);
                    } else {
                        let w2 = t.stage(k).works[slot as int];
                        assert(stage_costs(t.stage(k), n, k) =~= stage_costs(st, n, k).update(
                            slot as int,
                            remaining(w2, n, k),
                        ));
                        lemma_total_update(
                            stage_costs(st, n, k),
                            slot as int,
                            remaining(w2, n, k),
                        );
                    }
                },
                _ => {},
            }
        },
        _ => {},
    }
}

/// Works of which none is due stay so at any time before the earliest of
/// their deadlines.
proof fn lemma_not_due_before(works: Seq<Work>, now: u64, later: u64, from: int)
    requires
        0 <= from,
        first_due(works, now, from) is None,
        later < earliest(works, from),
    ensures
        first_due(works, later, from) is None,
    decreases works.len() - from,
{
    if from < works.len() {
        lemma_not_due_before(works, now, later, from + 1);
    }
}

/// Where no work is running the earliest deadline is the largest time.
proof fn lemma_earliest_none(works: Seq<Work>, from: int)
    requires
        0 <= from,
        forall|m: int| from <= m < works.len() ==> !((#[trigger] works[m]).phase is Running),
    ensures
        earliest(works, from) == u64::MAX,
    decreases works.len() - from,
{
    if from < works.len() {
        assert(!(works[from].phase is Running));
        lemma_earliest_none(works, from + 1);
    }
}

/// The work is running and its deadline is `at`.
spec fn runs_until(w: Work, at: u64) -> bool {
    match w.phase {
        Phase::Running { ticks, interval, deadline } => deadline == at,
        _ => false,
    }
}

/// Where a work is running, some running work has the earliest deadline.
proof fn lemma_earliest_attained(works: Seq<Work>, from: int, i: int)
    requires
        0 <= from <= i < works.len(),
        works[i].phase is Running,
    ensures
        exists|j: int|
            from <= j < works.len() && runs_until(#[trigger] works[j], earliest(works, from)),
    decreases works.len() - from,
{
    let rest = earliest(works, from + 1);
    let later = exists|m: int| from < m < works.len() && (#[trigger] works[m]).phase is Running;
    if later {
        let m = if from < i {
            i
        } else {
            choose|m: int| from < m < works.len() && (#[trigger] works[m]).phase is Running
        };
        lemma_earliest_attained(works, from + 1, m);
        let j = choose|j: int|
            from + 1 <= j < works.len() && runs_until(#[trigger] works[j], rest);
        if earliest(works, from) == rest {
            assert(runs_until(works[j], earliest(works, from)));
        } else {
            assert(runs_until(works[from], earliest(works, from)));
        }
    } else {
        lemma_earliest_none(works, from + 1);
        assert(runs_until(works[from], earliest(works, from)));
    }
}

/// A stage that has nothing to do before a time has nothing to do at any
/// time before it, and something at any time from it on.
pub proof fn lemma_pending_until(s: EngineState, k: int, now: u64, later: u64)
    requires
        s.wf(),
        0 <= k <= s.stages.len(),
        s.pull(k, now) is Pending,
    ensures
        later < s.pull(k, now)->Pending_0 ==> s.pull(k, later) == s.pull(k, now),
        later >= s.pull(k, now)->Pending_0 ==> s.pull(k, later) is Act,
    decreases k,
{
    if k > 0 {
        let st = s.stage(k);
        let works = st.works;
        assert(s.stage_wf(k - 1));
        lemma_first_complete(works, 0);
        lemma_first_due(works, now, 0);
        lemma_first_due(works, later, 0);
        let up = if st.has_room() {
            s.pull(k - 1, now)
        } else {
            Pull::Pending(u64::MAX)
        };
        let d = s.pull(k, now)->Pending_0;
        if st.has_room() {
            lemma_done_iff_empty(s, k - 1, now);
            lemma_done_iff_empty(s, k - 1, later);
            if up is Pending {
                lemma_pending_until(s, k - 1, now, later);
            }
        }
        if later < d {
            lemma_not_due_before(works, now, later, 0);
        } else if st.has_room() && up is Pending && later >= up->Pending_0 {
        } else {
            assert(works.len() > 0);
            assert(!is_due(works[0], now));
            assert(works[0].phase is Running);
            lemma_earliest_attained(works, 0, 0);
            let j = choose|j: int|
                0 <= j < works.len() && runs_until(#[trigger] works[j], earliest(works, 0));
            assert(is_due(works[j], later));
        }
    }
}

/// After a wait, at the time waited for, something other than a wait
/// happens.
pub proof fn lemma_wait_then_act(s: EngineState, now: u64)
    requires
        s.wf(),
        s.next_action(now) is Wait,
    ensures
        !(s.next_action(s.next_action(now)->until) is Wait),
        !(s.next_action(s.next_action(now)->until) is Finish),
{
    let n = s.stages.len() as int;
    lemma_pull_sound(s, n, now);
    let until = s.next_action(now)->until;
    lemma_pending_until(s, n, now, until);
    lemma_pull_sound(s, n, until);
}

/// One unless the last step of `schedule` was a wait.
pub open spec fn rested(s: EngineState, schedule: Seq<(u64, u32)>) -> nat {
    if schedule.len() > 0 && s.last_action(schedule) is Wait {
        0
    } else {
        1
    }
}

/// Every step of a punctual schedule pays for itself: unless the pipeline
/// is drained, what is left to do after the steps, counted twice, and the
/// steps made are within twice of what was left to do before them.
pub proof fn lemma_schedule_pays(s: EngineState, schedule: Seq<(u64, u32)>)
    requires
        s.inv(),
        s.punctual(schedule),
    ensures
        s.after(schedule).drained() || 2 * potential(s.after(schedule)) + rested(s, schedule)
            + schedule.len() <= 2 * potential(s) + 1,
    decreases schedule.len(),
{
    if schedule.len() > 0 {
        let earlier = schedule.drop_last();
        let b = s.after(earlier);
        let now = schedule.last().0;
        let draw = schedule.last().1;
        lemma_schedule_pays(s, earlier);
        lemma_after_inv(s, earlier);
        lemma_next_action_enabled(b, now);
        lemma_finish_iff_drained(b, now);
        let a = b.next_action(now);
        match a {
            Action::Wait { until } => {
                assert(s.after(schedule).history =~= b.history);
                assert(s.after(schedule) == b);
                if earlier.len() > 0 && s.last_action(earlier) is Wait {
                    // The step before was a wait too: then this one is due.
                    let before = s.after(earlier.drop_last());
                    let then = earlier.last().0;
                    lemma_after_inv(s, earlier.drop_last());
                    assert(b.history =~= before.history);
                    assert(b == before);
                    lemma_pull_sound(before, before.stages.len() as int, then);
                    lemma_pending_until(before, before.stages.len() as int, then, now);
                    lemma_pull_sound(before, before.stages.len() as int, now);
                }
            },
            Action::Finish => {
                assert(s.after(schedule).history =~= b.history);
                assert(s.after(schedule) == b);
            },
            _ => {
                lemma_step_descends(b, a, now, draw);
            },
        }
    }
}

/// Enough punctual steps drain the pipeline, whatever the draws and
/// however late the steps come: twice the steps that are left to do, and
/// two more.
pub proof fn lemma_schedule_drains(s: EngineState, schedule: Seq<(u64, u32)>)
    requires
        s.inv(),
        s.punctual(schedule),
        schedule.len() >= 2 * potential(s) + 2,
    ensures
        s.after(schedule).drained(),
{
    lemma_schedule_pays(s, schedule);
}

/// One if the pipeline waits at time `now`, else nothing.
pub open spec fn waiting(s: EngineState, now: u64) -> nat {
    if s.next_action(now) is Wait {
        1
    } else {
        0
    }
}

/// Every step of a run pays for itself: unless the pipeline is drained,
/// what is left to do after the run, counted twice, and the steps made are
/// within twice of what was left to do before it.
pub proof fn lemma_run_pays(s: EngineState, start: u64, draws: Seq<u32>)
    requires
        s.inv(),
    ensures
        s.ran(start, draws).0.drained() || 2 * potential(s.ran(start, draws).0) + waiting(
            s.ran(start, draws).0,
            s.ran(start, draws).1,
        ) + draws.len() <= 2 * potential(s) + 1,
    decreases draws.len(),
{
    if draws.len() > 0 {
        let before = s.ran(start, draws.drop_last());
        let b = before.0;
        let now = before.1;
        let draw = draws.last();
        let after = s.ran(start, draws);
        lemma_run_pays(s, start, draws.drop_last());
        lemma_ran_inv(s, start, draws.drop_last());
        lemma_next_action_enabled(b, now);
        lemma_finish_iff_drained(b, now);
        let a = b.next_action(now);
        match a {
            Action::Wait { until } => {
                assert(after.0.history =~= b.history);
                assert(after.0 == b);
                lemma_wait_then_act(b, now);
            },
            Action::Finish => {
                assert(after.0.history =~= b.history);
                assert(after.0 == b);
            },
            _ => {
                lemma_step_descends(b, a, now, draw);
            },
        }
    }
}

/// A run of enough steps drains the pipeline, whatever the draws: twice
/// the steps that are left to do, and two more.
pub proof fn lemma_run_drains(s: EngineState, start: u64, draws: Seq<u32>)
    requires
        s.inv(),
        draws.len() >= 2 * potential(s) + 2,
    ensures
        s.ran(start, draws).0.drained(),
{
    lemma_run_pays(s, start, draws);
}

/// Before anything has happened, what is left to do is the whole passage
/// for every unit.
pub proof fn lemma_initial_potential(s: EngineState)
    requires
        s.next_id == 0,
        forall|j: int| 0 <= j < s.stages.len() ==> (#[trigger] s.stages[j]).works.len() == 0,
    ensures
        potential(s) == s.size * passage(s.stages.len(), 1),
        passage(s.stages.len(), 1) == s.stages.len() * (TICKS + 2) + 1,
{
    lemma_total_zero(costs(s));
}

/// Zeros sum to zero.
proof fn lemma_total_zero(xs: Seq<nat>)
    requires
        forall|i: int| 0 <= i < xs.len() ==> #[trigger] xs[i] == 0,
    ensures
        total(xs) == 0,
    decreases xs.len(),
{
    if xs.len() > 0 {
        lemma_total_zero(xs.drop_last());
    }
}

} // verus!
