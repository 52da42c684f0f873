//! Every step keeps the state and the events coherent.

use vstd::prelude::*;
use crate::coherence::witnessed;
use crate::events::{
    StreamUpdate, spec_advanced, spec_created, spec_pending, spec_progressed, spec_rejected,
};
use crate::model::{Action, EngineState, Phase, StageConfig, work_wf};
use crate::trace::{
    created_ids, entered, first_ids, in_progress, is_rejected, left, lemma_event_added,
    lemma_unmentioned, mentions, visits,
};

verus! {

/// Before anything has happened the state and the empty sequence of events
/// are coherent.
pub proof fn lemma_initial_traced(size: nat, configs: Seq<StageConfig>)
    ensures
        EngineState::initial(size, configs).traced(),
{
    let s = EngineState::initial(size, configs);
    assert(created_ids(s.history) =~= first_ids(0));
    assert forall|j: int|
        0 <= j < s.stages.len() && (#[trigger] s.stages[j]).config.kind is Ordered implies entered(
        s.history,
        (j + 1) as u32,
    ) == left(s.history, (j + 1) as u32) + s.stages[j].ids() by {
        assert(entered(s.history, (j + 1) as u32) =~= left(s.history, (j + 1) as u32)
            + s.stages[j].ids());
    }
}

/// Two works of a coherent state that hold the same unit are the same work.
pub proof fn lemma_unit_held_once(s: EngineState, j1: int, i1: int, j2: int, i2: int)
    requires
        s.traced(),
        0 <= j1 < s.stages.len(),
        0 <= i1 < s.stages[j1].works.len(),
        0 <= j2 < s.stages.len(),
        0 <= i2 < s.stages[j2].works.len(),
        s.stages[j1].works[i1].unit.id == s.stages[j2].works[i2].unit.id,
    ensures
        j1 == j2,
        i1 == i2,
{
    assert(witnessed(s.history, s.stages[j1].works[i1], j1 + 1));
    assert(witnessed(s.history, s.stages[j2].works[i2], j2 + 1));
}

/// A work that starts keeps the state coherent.
pub proof fn lemma_start_traced(s: EngineState, stage: usize, slot: usize, now: u64, draw: u32)
    requires
        s.inv(),
        s.startable(stage as int, slot as int),
    ensures
        s.applied(Action::Start { stage, slot }, now, draw).traced(),
{
    let a = Action::Start { stage, slot };
    let t = s.applied(a, now, draw);
    let h = s.history;
    let k = stage as int;
    let w = s.stage(k).works[slot as int];
    let id = w.unit.id;
    let e = spec_progressed(id, 0);
    assert(t.history =~= h.push(e));
    lemma_event_added(h, e);
    assert(s.stage_wf(k - 1));
    assert(work_wf(w, k, s.next_id));
    assert(witnessed(h, w, k));
    lemma_works_rewritten(s, t, k, slot as int, id, e);
}

/// Where one event about a unit is added and the work on that unit, at
/// `slot` of stage `k`, is replaced by another work on it that the events
/// witness, the state stays coherent.
proof fn lemma_works_rewritten(
    s: EngineState,
    t: EngineState,
    k: int,
    slot: int,
    id: u32,
    e: StreamUpdate,
)
    requires
        s.inv(),
        1 <= k <= s.stages.len(),
        0 <= slot < s.stage(k).works.len(),
        s.stage(k).works[slot].unit.id == id,
        e is ChangeValue,
        e.spec_unit_id() == id,
        t.history == s.history.push(e),
        t.size == s.size,
        t.next_id == s.next_id,
        t.stages.len() == s.stages.len(),
        forall|j: int|
            0 <= j < s.stages.len() ==> (#[trigger] t.stages[j]).config == s.stages[j].config
                && t.stages[j].works.len() == s.stages[j].works.len(),
        forall|j: int, i: int|
            0 <= j < s.stages.len() && 0 <= i < s.stages[j].works.len() && !(j == k - 1 && i
                == slot) ==> #[trigger] t.stages[j].works[i] == s.stages[j].works[i],
        t.stages[k - 1].works[slot].unit == s.stages[k - 1].works[slot].unit,
        in_progress(t.history, id) <==> t.stages[k - 1].works[slot].phase is Running,
    ensures
        t.traced(),
{
    let h = s.history;
    lemma_event_added(h, e);
    assert(s.stage_wf(k - 1));
    assert(work_wf(s.stage(k).works[slot], k, s.next_id));
    assert(witnessed(h, s.stages[k - 1].works[slot], k));
    assert forall|j: int, i: int|
        0 <= j < t.stages.len() && 0 <= i < t.stages[j].works.len() implies witnessed(
        t.history,
        #[trigger] t.stages[j].works[i],
        j + 1,
    ) by {
        assert(witnessed(h, s.stages[j].works[i], j + 1));
        if !(j == k - 1 && i == slot) {
            if s.stages[j].works[i].unit.id == id {
                lemma_unit_held_once(s, j, i, k - 1, slot);
            }
        }
    }
    assert forall|j: int, i1: int, i2: int|
        0 <= j < t.stages.len() && 0 <= i1 < t.stages[j].works.len() && 0 <= i2
            < t.stages[j].works.len() && i1 != i2 implies (#[trigger] t.stages[j].works[i1]).unit.id
        != (#[trigger] t.stages[j].works[i2]).unit.id by {
        assert(s.stages[j].works[i1].unit.id != s.stages[j].works[i2].unit.id);
    }
    assert forall|id2: u32| id2 < t.next_id implies {
        ||| is_rejected(t.history, id2)
        ||| (#[trigger] visits(t.history, id2)).len() == t.sink()
        ||| t.holds(visits(t.history, id2).len() as int, id2)
    } by {
        let n = visits(h, id2).len() as int;
        if !is_rejected(h, id2) && n != s.sink() {
            assert(s.holds(n, id2));
            let i = choose|i: int|
                0 <= i < s.stage(n).works.len() && (#[trigger] s.stage(n).works[i]).unit.id == id2;
            assert(t.stage(n).works[i].unit.id == id2);
        }
    }
    assert forall|j: int|
        0 <= j < t.stages.len() && (#[trigger] t.stages[j]).config.kind is Ordered implies entered(
        t.history,
        (j + 1) as u32,
    ) == left(t.history, (j + 1) as u32) + t.stages[j].ids() by {
        assert(s.stages[j].config.kind is Ordered);
        assert(t.stages[j].ids() =~= s.stages[j].ids());
    }
}

/// A work that makes a step keeps the state coherent.
pub proof fn lemma_tick_traced(s: EngineState, stage: usize, slot: usize, now: u64, draw: u32)
    requires
        s.inv(),
        s.tickable(stage as int, slot as int, now),
    ensures
        s.applied(Action::Tick { stage, slot }, now, draw).traced(),
{
    let a = Action::Tick { stage, slot };
    let t = s.applied(a, now, draw);
    let h = s.history;
    let k = stage as int;
    let w = s.stage(k).works[slot as int];
    let id = w.unit.id;
    assert(s.stage_wf(k - 1));
    assert(work_wf(w, k, s.next_id));
    assert(witnessed(h, w, k));
    match w.phase {
        Phase::Running { ticks, interval, deadline } => {
            let e = spec_progressed(id, (ticks + 1) as u32);
            lemma_event_added(h, e);
            if s.drops(k, slot as int, draw) {
                let r = spec_rejected(id);
                lemma_event_added(h.push(e), r);
                assert(t.history =~= h.push(e).push(r));
                lemma_unit_dropped(s, t, k, slot as int, id);
            } else {
                assert(t.history =~= h.push(e));
                lemma_works_rewritten(s, t, k, slot as int, id, e);
            }
        },
        _ => {},
    }
}

/// Where a filter drops the unit at `slot` of stage `k` after its last
/// step, the state stays coherent.
proof fn lemma_unit_dropped(s: EngineState, t: EngineState, k: int, slot: int, id: u32)
    requires
        s.inv(),
        1 <= k <= s.stages.len(),
        0 <= slot < s.stage(k).works.len(),
        s.stage(k).works[slot].unit.id == id,
        s.stage(k).config.kind is Filter,
        t.history == s.history.push(spec_progressed(id, 5)).push(spec_rejected(id)),
        t.size == s.size,
        t.next_id == s.next_id,
        t.stages == s.stages.update(
            k - 1,
            s.stage(k).with_works(s.stage(k).works.remove(slot)),
        ),
    ensures
        t.traced(),
{
    let h = s.history;
    let e = spec_progressed(id, 5);
    let r = spec_rejected(id);
    lemma_event_added(h, e);
    lemma_event_added(h.push(e), r);
    assert(s.stage_wf(k - 1));
    assert(work_wf(s.stage(k).works[slot], k, s.next_id));
    assert(witnessed(h, s.stages[k - 1].works[slot], k));
    assert forall|j: int, i: int|
        0 <= j < t.stages.len() && 0 <= i < t.stages[j].works.len() implies witnessed(
        t.history,
        #[trigger] t.stages[j].works[i],
        j + 1,
    ) by {
        let i0 = if j == k - 1 && i >= slot {
            i + 1
        } else {
            i
        };
        assert(t.stages[j].works[i] == s.stages[j].works[i0]);
        assert(witnessed(h, s.stages[j].works[i0], j + 1));
        if s.stages[j].works[i0].unit.id == id {
            lemma_unit_held_once(s, j, i0, k - 1, slot);
        }
    }
    assert forall|j: int, i1: int, i2: int|
        0 <= j < t.stages.len() && 0 <= i1 < t.stages[j].works.len() && 0 <= i2
            < t.stages[j].works.len() && i1 != i2 implies (#[trigger] t.stages[j].works[i1]).unit.id
        != (#[trigger] t.stages[j].works[i2]).unit.id by {
        let a1 = if j == k - 1 && i1 >= slot {
            i1 + 1
        } else {
            i1
        };
        let a2 = if j == k - 1 && i2 >= slot {
            i2 + 1
        } else {
            i2
        };
        assert(s.stages[j].works[a1].unit.id != s.stages[j].works[a2].unit.id);
    }
    assert forall|id2: u32| id2 < t.next_id implies {
        ||| is_rejected(t.history, id2)
        ||| (#[trigger] visits(t.history, id2)).len() == t.sink()
        ||| t.holds(visits(t.history, id2).len() as int, id2)
    } by {
        let n = visits(h, id2).len() as int;
        if id2 != id && !is_rejected(h, id2) && n != s.sink() {
            assert(s.holds(n, id2));
            let i = choose|i: int|
                0 <= i < s.stage(n).works.len() && (#[trigger] s.stage(n).works[i]).unit.id == id2;
            let i1 = if n == k && i > slot {
                i - 1
            } else {
                i
            };
            assert(t.stage(n).works[i1].unit.id == id2);
        }
    }
    assert forall|j: int|
        0 <= j < t.stages.len() && (#[trigger] t.stages[j]).config.kind is Ordered implies entered(
        t.history,
        (j + 1) as u32,
    ) == left(t.history, (j + 1) as u32) + t.stages[j].ids() by {
        assert(s.stages[j].config.kind is Ordered);
        assert(t.stages[j].ids() =~= s.stages[j].ids());
    }
}

/// A unit that moves into the next stage keeps the state coherent.
pub proof fn lemma_move_traced(s: EngineState, stage: usize, slot: usize, now: u64, draw: u32)
    requires
        s.inv(),
        s.admissible(stage as int, slot as int),
    ensures
        s.applied(Action::Admit { stage, slot }, now, draw).traced(),
{
    let a = Action::Admit { stage, slot };
    let t = s.applied(a, now, draw);
    let h = s.history;
    let k = stage as int;
    let id = s.admitted_id(k, slot as int);
    let made = spec_created(id);
    let adv = spec_advanced(id, (k - 1) as u32, k as u32);
    let pend = spec_pending(id, k as u32);
    let h0 = if k == 1 {
        h.push(made)
    } else {
        h
    };
    let h1 = h0.push(adv);
    let h2 = if k < s.sink() {
        h1.push(pend)
    } else {
        h1
    };
    assert(t.history =~= h2);
    lemma_event_added(h, made);
    lemma_event_added(h0, adv);
    lemma_event_added(h1, pend);
    // What the events said of the unit before it moved.
    if k == 1 {
        assert(!mentions(h, id));
        lemma_unmentioned(h, id);
    } else {
        assert(s.stage_wf(k - 2));
        assert(work_wf(s.stages[k - 2].works[slot as int], k - 1, s.next_id));
        assert(witnessed(h, s.stages[k - 2].works[slot as int], k - 1));
    }
    assert(visits(h, id).len() == k - 1);
    assert(!is_rejected(h, id));
    assert(!in_progress(h, id));
    assert(visits(t.history, id) == visits(h, id).push(k as u32));
    assert(!in_progress(t.history, id));
    assert(!is_rejected(t.history, id));
    assert(created_ids(t.history) =~= first_ids(t.next_id));

    // The unit stands where it was put, and nowhere else.
    assert forall|j: int, i: int|
        0 <= j < t.stages.len() && 0 <= i < t.stages[j].works.len() implies {
        &&& witnessed(t.history, #[trigger] t.stages[j].works[i], j + 1)
        &&& t.stages[j].works[i].unit.id == id <==> j == k - 1 && i == s.stages[j].works.len()
    } by {
        if !(j == k - 1 && i == s.stages[j].works.len()) {
            let i0 = if j == k - 2 && i >= slot {
                i + 1
            } else {
                i
            };
            assert(t.stages[j].works[i] == s.stages[j].works[i0]);
            assert(witnessed(h, s.stages[j].works[i0], j + 1));
            if s.stages[j].works[i0].unit.id == id {
                if k > 1 {
                    lemma_unit_held_once(s, j, i0, k - 2, slot as int);
                } else {
                    assert(s.stage_wf(j));
                    assert(work_wf(s.stages[j].works[i0], j + 1, s.next_id));
                }
            }
        }
    }
    assert(t.works_witnessed());
    assert forall|j: int, i1: int, i2: int|
        0 <= j < t.stages.len() && 0 <= i1 < t.stages[j].works.len() && 0 <= i2
            < t.stages[j].works.len() && i1 != i2 implies (#[trigger] t.stages[j].works[i1]).unit.id
        != (#[trigger] t.stages[j].works[i2]).unit.id by {
        if j == k - 1 && (i1 == s.stages[j].works.len() || i2 == s.stages[j].works.len()) {
        } else {
            let a1 = if j == k - 2 && i1 >= slot {
                i1 + 1
            } else {
                i1
            };
            let a2 = if j == k - 2 && i2 >= slot {
                i2 + 1
            } else {
                i2
            };
            assert(t.stages[j].works[i1] == s.stages[j].works[a1]);
            assert(t.stages[j].works[i2] == s.stages[j].works[a2]);
            assert(s.stages[j].works[a1].unit.id != s.stages[j].works[a2].unit.id);
        }
    }
    assert(t.works_distinct());
    assert forall|id2: u32, n: int| 0 <= n < visits(t.history, id2).len() implies #[trigger] visits(
        t.history,
        id2,
    )[n] == n + 1 by {
        if id2 == id && n == k - 1 {
        } else {
            assert(visits(h, id2)[n] == n + 1);
        }
    }
    assert(t.paths_consecutive());
    assert forall|id2: u32| id2 < t.next_id implies {
        ||| is_rejected(t.history, id2)
        ||| (#[trigger] visits(t.history, id2)).len() == t.sink()
        ||| t.holds(visits(t.history, id2).len() as int, id2)
    } by {
        if id2 == id {
            if k < s.sink() {
                let i = s.stages[k - 1].works.len() as int;
                assert(t.stage(k).works[i].unit.id == id);
            }
        } else {
            let n = visits(h, id2).len() as int;
            if !is_rejected(h, id2) && n != s.sink() {
                assert(s.holds(n, id2));
                let i = choose|i: int|
                    0 <= i < s.stage(n).works.len() && (#[trigger] s.stage(n).works[i]).unit.id
                        == id2;
                let i1 = if n == k - 1 && i > slot {
                    i - 1
                } else {
                    i
                };
                assert(t.stage(n).works[i1] == s.stage(n).works[i]);
                assert(t.stage(n).works[i1].unit.id == id2);
            }
        }
    }
    assert(t.units_accounted());
    assert(t.progress_inside());
    assert forall|j: int|
        0 <= j < t.stages.len() && (#[trigger] t.stages[j]).config.kind is Ordered implies entered(
        t.history,
        (j + 1) as u32,
    ) == left(t.history, (j + 1) as u32) + t.stages[j].ids() by {
        assert(s.stages[j].config.kind is Ordered);
        let before = s.stages[j].ids();
        let after = t.stages[j].ids();
        assert(entered(h, (j + 1) as u32) == left(h, (j + 1) as u32) + before);
        if j == k - 1 {
            assert(after =~= before.push(id));
            assert(entered(t.history, (j + 1) as u32) =~= left(t.history, (j + 1) as u32) + after);
        } else if j == k - 2 {
            assert(slot == 0);
            assert(before[0] == id);
            assert(after =~= before.remove(0));
            assert(entered(t.history, (j + 1) as u32) =~= left(t.history, (j + 1) as u32) + after);
        } else {
            assert(after =~= before);
        }
    }
    assert(t.order_kept());
}

} // verus!
