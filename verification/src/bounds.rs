//! No stage ever works on more units than its capacity, at any point of
//! the sequence of events.

use vstd::prelude::*;
use crate::events::{
    StreamUpdate, spec_advanced, spec_created, spec_pending, spec_progressed, spec_rejected,
};
use crate::coherence::witnessed;
use crate::model::{Action, EngineState, Phase, StageConfig, work_wf};
use crate::trace::{
    active, in_progress, lemma_event_added, lemma_unmentioned, mentions, never_exceeded, visits,
};

verus! {

/// The units that the events show at work in a stage are among those that
/// the stage holds.
pub proof fn lemma_active_within_held(s: EngineState, stage: u32)
    requires
        s.wf(),
        s.traced(),
        1 <= stage < s.sink(),
    ensures
        active(s.history, stage).finite(),
        active(s.history, stage).len() <= s.stage(stage as int).works.len(),
        active(s.history, stage).len() <= s.stage(stage as int).config.capacity,
{
    let h = s.history;
    let held = s.stage(stage as int).ids();
    assert(s.stage_wf(stage - 1));
    assert forall|id: u32| active(h, stage).contains(id) implies held.to_set().contains(id) by {
        let v = visits(h, id);
        assert(visits(h, id)[v.len() - 1] == v.len());
        if id >= s.next_id {
            assert(!mentions(h, id));
            lemma_unmentioned(h, id);
        }
        assert(s.holds(v.len() as int, id));
        let i = choose|i: int|
            0 <= i < s.stage(stage as int).works.len() && (#[trigger] s.stage(
                stage as int,
            ).works[i]).unit.id == id;
        assert(held[i] == id);
    }
    held.lemma_cardinality_of_set();
    vstd::set_lib::lemma_len_subset(active(h, stage), held.to_set());
}

/// What held throughout a sequence held after each of its events.
pub proof fn lemma_never_exceeded_at(h: Seq<StreamUpdate>, stage: u32, bound: nat, n: int)
    requires
        never_exceeded(h, stage, bound),
        0 <= n <= h.len(),
    ensures
        active(h.take(n), stage).finite(),
        active(h.take(n), stage).len() <= bound,
    decreases h.len(),
{
    if n == h.len() {
        assert(h.take(n) =~= h);
    } else {
        lemma_never_exceeded_at(h.drop_last(), stage, bound, n);
        assert(h.drop_last().take(n) =~= h.take(n));
    }
}

/// An event about a unit whose work is not under way afterwards puts no
/// unit to work: in no stage are there more at work than before.
proof fn lemma_event_starts_nothing(
    h: Seq<StreamUpdate>,
    e: StreamUpdate,
    stage: u32,
    bound: nat,
)
    requires
        never_exceeded(h, stage, bound),
        !in_progress(h.push(e), e.spec_unit_id()),
    ensures
        never_exceeded(h.push(e), stage, bound),
{
    lemma_event_added(h, e);
    assert forall|id: u32| active(h.push(e), stage).contains(id) implies active(
        h,
        stage,
    ).contains(id) by {
        assert(id != e.spec_unit_id());
    }
    vstd::set_lib::lemma_len_subset(active(h.push(e), stage), active(h, stage));
}

/// Before anything has happened nothing is at work.
pub proof fn lemma_initial_bounded(size: nat, configs: Seq<StageConfig>)
    ensures
        EngineState::initial(size, configs).bounded_throughout(),
{
    let s = EngineState::initial(size, configs);
    assert forall|j: int| 0 <= j < s.stages.len() implies never_exceeded(
        s.history,
        (j + 1) as u32,
        (#[trigger] s.stages[j]).config.capacity as nat,
    ) by {
        assert(active(s.history, (j + 1) as u32) =~= Set::<u32>::empty());
    }
}

/// An enabled action keeps every stage within its capacity, after each of
/// the events that it emits.
pub proof fn lemma_applied_bounded(s: EngineState, a: Action, now: u64, draw: u32)
    requires
        s.inv(),
        s.enabled(a, now),
        s.applied(a, now, draw).wf(),
        s.applied(a, now, draw).traced(),
    ensures
        s.applied(a, now, draw).bounded_throughout(),
{
    let t = s.applied(a, now, draw);
    let h = s.history;
    assert forall|j: int| 0 <= j < t.stages.len() implies never_exceeded(
        t.history,
        (j + 1) as u32,
        (#[trigger] t.stages[j]).config.capacity as nat,
    ) by {
        let stage = (j + 1) as u32;
        let bound = s.stages[j].config.capacity as nat;
        assert(t.stages[j].config == s.stages[j].config);
        assert(never_exceeded(h, stage, bound));
        lemma_active_within_held(t, stage);
        match a {
            Action::Admit { stage: k, slot } => {
                let id = s.admitted_id(k as int, slot as int);
                let made = spec_created(id);
                let adv = spec_advanced(id, (k - 1) as u32, k as u32);
                let h0 = if k == 1 {
                    h.push(made)
                } else {
                    h
                };
                let h1 = h0.push(adv);
                lemma_event_added(h, made);
                lemma_event_added(h0, adv);
                if k == 1 {
                    assert(!mentions(h, id));
                    lemma_unmentioned(h, id);
                    lemma_event_starts_nothing(h, made, stage, bound);
                } else {
                    assert(s.stage_wf(k - 2));
                    assert(witnessed(h, s.stages[k - 2].works[slot as int], k - 1));
                }
                lemma_event_starts_nothing(h0, adv, stage, bound);
                if k < s.sink() {
                    let pend = spec_pending(id, k as u32);
                    lemma_event_added(h1, pend);
                    assert(t.history =~= h1.push(pend));
                } else {
                    assert(t.history =~= h1);
                }
            },
            Action::Start { stage: k, slot } => {
                let id = s.stage(k as int).works[slot as int].unit.id;
                let e = spec_progressed(id, 0);
                lemma_event_added(h, e);
                assert(t.history =~= h.push(e));
            },
            Action::Tick { stage: k, slot } => {
                let w = s.stage(k as int).works[slot as int];
                assert(s.stage_wf(k - 1));
                assert(work_wf(w, k as int, s.next_id));
                match w.phase {
                    Phase::Running { ticks, interval, deadline } => {
                        let e = spec_progressed(w.unit.id, (ticks + 1) as u32);
                        lemma_event_added(h, e);
                        if s.drops(k as int, slot as int, draw) {
                            let r = spec_rejected(w.unit.id);
                            lemma_event_added(h.push(e), r);
                            lemma_event_starts_nothing(h, e, stage, bound);
                            assert(t.history =~= h.push(e).push(r));
                        } else {
                            assert(t.history =~= h.push(e));
                        }
                    },
                    _ => {},
                }
            },
            Action::Wait { until } => {
                assert(t.history =~= h);
            },
            Action::Finish => {
                assert(t.history =~= h);
            },
        }
    }
}

} // verus!
