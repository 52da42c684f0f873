//! What holds of every run of every pipeline, whatever the times at which
//! it is stepped and whatever the draws.

use vstd::prelude::*;
use crate::blocks::{BlockState, lemma_without_first, spec_descriptor, spec_pipeline};
use crate::bounds::{lemma_active_within_held, lemma_never_exceeded_at};
use crate::builder::StreamVisBuilder;
use crate::coherence::witnessed;
use crate::events::{
    StreamUpdate, TICKS, UnitAdvanceBlockEvent, spec_created, spec_pending, spec_rejected,
};
use crate::model::{Action, EngineState, StageConfig, config_wf};
use crate::progress::{lemma_initial_potential, lemma_run_drains, lemma_schedule_drains};
use crate::steps::{
    lemma_after_inv, lemma_initial_inv, lemma_next_action_enabled, lemma_ran_inv,
    lemma_ran_keeps_shape,
};
use crate::trace::{
    active, advances, created_ids, entered, first_ids, in_progress, is_rejected, left,
    lemma_event_added, mentions, never_exceeded, silent_after_rejection, stages_up_to, visits,
};

verus! {

/// Every state that a pipeline with valid stages reaches has the invariant
/// that the laws below start from.
pub proof fn lemma_reachable_inv(size: nat, configs: Seq<StageConfig>, schedule: Seq<(u64, u32)>)
    requires
        size <= u32::MAX,
        configs.len() + 1 <= u32::MAX,
        forall|j: int| 0 <= j < configs.len() ==> config_wf(#[trigger] configs[j]),
    ensures
        EngineState::initial(size, configs).after(schedule).inv(),
{
    lemma_initial_inv(size, configs);
    lemma_after_inv(EngineState::initial(size, configs), schedule);
}

/// When a pipeline is drained, every unit from `0` to `size - 1` was
/// created, once and in order, and each of them was dropped by a filter or
/// has moved into the sink last.
pub proof fn lemma_drained_accounts_for_all(s: EngineState)
    requires
        s.inv(),
        s.drained(),
    ensures
        created_ids(s.history) == first_ids(s.size),
        forall|id: u32|
            id < s.size ==> is_rejected(s.history, id) || (visits(s.history, id).len() > 0
                && #[trigger] visits(s.history, id).last() == s.sink()),
{
    lemma_created_once_in_order(s);
    assert forall|id: u32| id < s.size implies is_rejected(s.history, id) || (visits(
        s.history,
        id,
    ).len() > 0 && #[trigger] visits(s.history, id).last() == s.sink()) by {
        lemma_stages_increase(s, id);
    }
}

/// A run of enough steps on a clock that jumps over the waits takes every
/// pipeline to its end, whatever the draws: seven steps for each unit in
/// each stage and one more for each unit, twice, and two more.
pub proof fn lemma_complete_run(
    size: nat,
    configs: Seq<StageConfig>,
    start: u64,
    draws: Seq<u32>,
)
    requires
        size <= u32::MAX,
        configs.len() + 1 <= u32::MAX,
        forall|j: int| 0 <= j < configs.len() ==> config_wf(#[trigger] configs[j]),
        draws.len() >= 2 * (size * (configs.len() * (TICKS + 2) + 1)) + 2,
    ensures
        EngineState::initial(size, configs).ran(start, draws).0.inv(),
        EngineState::initial(size, configs).ran(start, draws).0.drained(),
        EngineState::initial(size, configs).ran(start, draws).0.size == size,
        EngineState::initial(size, configs).ran(start, draws).0.sink() == configs.len() + 1,
{
    let s = EngineState::initial(size, configs);
    lemma_initial_inv(size, configs);
    lemma_initial_potential(s);
    lemma_run_drains(s, start, draws);
    lemma_ran_inv(s, start, draws);
    lemma_ran_keeps_shape(s, start, draws);
}

/// As many steps at any times take every pipeline to its end, whatever the
/// draws, if no step that follows a wait comes before the time waited for.
pub proof fn lemma_complete_schedule(
    size: nat,
    configs: Seq<StageConfig>,
    schedule: Seq<(u64, u32)>,
)
    requires
        size <= u32::MAX,
        configs.len() + 1 <= u32::MAX,
        forall|j: int| 0 <= j < configs.len() ==> config_wf(#[trigger] configs[j]),
        EngineState::initial(size, configs).punctual(schedule),
        schedule.len() >= 2 * (size * (configs.len() * (TICKS + 2) + 1)) + 2,
    ensures
        EngineState::initial(size, configs).after(schedule).inv(),
        EngineState::initial(size, configs).after(schedule).drained(),
{
    let s = EngineState::initial(size, configs);
    lemma_initial_inv(size, configs);
    lemma_initial_potential(s);
    lemma_schedule_drains(s, schedule);
    lemma_after_inv(s, schedule);
}

/// The units are created in the order of their identifiers, from 0, each
/// once; when the pipeline is drained they are the units `0` to
/// `size - 1`.
pub proof fn lemma_created_once_in_order(s: EngineState)
    requires
        s.inv(),
    ensures
        created_ids(s.history) == first_ids(s.next_id),
        created_ids(s.history).no_duplicates(),
        forall|id: u32| created_ids(s.history).contains(id) <==> id < s.next_id,
        s.drained() ==> created_ids(s.history) == first_ids(s.size),
{
    let ids = first_ids(s.next_id);
    assert forall|id: u32| ids.contains(id) <==> id < s.next_id by {
        if id < s.next_id {
            assert(ids[id as int] == id);
        }
    }
}

/// The stages that a unit moves into are the stages 1, 2, 3 and so on, so
/// their identifiers increase strictly; a unit that was not dropped has,
/// when the pipeline is drained, moved into the sink last.
pub proof fn lemma_stages_increase(s: EngineState, id: u32)
    requires
        s.inv(),
    ensures
        visits(s.history, id) == stages_up_to(visits(s.history, id).len()),
        forall|m: int, n: int|
            0 <= m < n < visits(s.history, id).len() ==> visits(s.history, id)[m] < visits(
                s.history,
                id,
            )[n],
        s.drained() && id < s.next_id && !is_rejected(s.history, id) ==> visits(
            s.history,
            id,
        ).len() > 0 && visits(s.history, id).last() == s.sink(),
{
    let v = visits(s.history, id);
    assert forall|n: int| 0 <= n < v.len() implies v[n] == stages_up_to(v.len())[n] by {
        assert(visits(s.history, id)[n] == n + 1);
    }
    assert(v =~= stages_up_to(v.len()));
    assert forall|m: int, n: int| 0 <= m < n < v.len() implies v[m] < v[n] by {
        assert(visits(s.history, id)[m] == m + 1);
        assert(visits(s.history, id)[n] == n + 1);
    }
    if s.drained() && id < s.next_id && !is_rejected(s.history, id) {
        if v.len() != s.sink() {
            assert(s.holds(v.len() as int, id));
            assert(s.stages[v.len() - 1].works.len() == 0);
        }
        assert(visits(s.history, id)[v.len() - 1] == v.len());
    }
}

/// The units leave an ordered stage in the order in which they entered it:
/// those that have left are the first of those that entered, in the same
/// order, and those that the stage holds are the rest.
pub proof fn lemma_ordered_stage_keeps_order(s: EngineState, stage: u32)
    requires
        s.inv(),
        1 <= stage < s.sink(),
        s.stage(stage as int).config.kind is Ordered,
    ensures
        entered(s.history, stage) == left(s.history, stage) + s.stage(stage as int).ids(),
        left(s.history, stage).is_prefix_of(entered(s.history, stage)),
        s.drained() ==> left(s.history, stage) == entered(s.history, stage),
{
    let j = stage - 1;
    assert(s.stages[j].config.kind is Ordered);
    assert(entered(s.history, (j + 1) as u32) == left(s.history, (j + 1) as u32)
        + s.stages[j].ids());
    let l = left(s.history, stage);
    let e = entered(s.history, stage);
    assert(l =~= e.subrange(0, l.len() as int));
    if s.drained() {
        assert(s.stages[j].works.len() == 0);
        assert(l =~= e);
    }
}

/// At no time does a stage work on more units than its capacity: the units
/// that are in the stage with work reported as started and not as finished
/// are among those that the stage holds, and after no event so far were
/// they more than the capacity.
pub proof fn lemma_in_flight_bounded(s: EngineState, stage: u32)
    requires
        s.inv(),
        1 <= stage < s.sink(),
    ensures
        active(s.history, stage).finite(),
        active(s.history, stage).len() <= s.stage(stage as int).works.len(),
        active(s.history, stage).len() <= s.stage(stage as int).config.capacity,
        never_exceeded(s.history, stage, s.stage(stage as int).config.capacity as nat),
        forall|n: int|
            0 <= n <= s.history.len() ==> (#[trigger] active(s.history.take(n), stage)).len()
                <= s.stage(stage as int).config.capacity,
{
    lemma_active_within_held(s, stage);
    let bound = s.stages[stage - 1].config.capacity as nat;
    assert(never_exceeded(s.history, stage, bound));
    assert forall|n: int| 0 <= n <= s.history.len() implies (#[trigger] active(
        s.history.take(n),
        stage,
    )).len() <= bound by {
        lemma_never_exceeded_at(s.history, stage, bound, n);
    }
}

/// A stage is at work on a unit exactly while the events report the unit's
/// work as started and not as finished.
pub proof fn lemma_running_is_reported(s: EngineState, stage: u32, slot: int)
    requires
        s.inv(),
        1 <= stage < s.sink(),
        0 <= slot < s.stage(stage as int).works.len(),
    ensures
        s.stage(stage as int).works[slot].phase is Running <==> active(s.history, stage).contains(
            s.stage(stage as int).works[slot].unit.id,
        ),
{
    let w = s.stages[stage - 1].works[slot];
    assert(witnessed(s.history, w, stage as int));
    let v = visits(s.history, w.unit.id);
    assert(visits(s.history, w.unit.id)[v.len() - 1] == v.len());
}

/// Once a filter has dropped a unit, no event is about that unit; and no
/// event is about a unit that has not been created.
pub proof fn lemma_rejection_is_final(s: EngineState)
    requires
        s.inv(),
    ensures
        silent_after_rejection(s.history),
        forall|id: u32| id >= s.next_id ==> !mentions(s.history, id),
        forall|id: u32| is_rejected(s.history, id) ==> !in_progress(s.history, id),
{
}

/// Whoever keeps the queue of an ordered stage by the moves that the
/// events report sees the units that the stage holds: where the queue
/// shows them before a step, the queue brought up to date with the events
/// of the step shows them after it.
pub proof fn lemma_queue_follows_step(
    s: EngineState,
    now: u64,
    draw: u32,
    stage: u32,
    shown: BlockState,
)
    requires
        s.inv(),
        1 <= stage < s.sink(),
        s.stage(stage as int).config.kind is Ordered,
        shown is MapBuffer,
        shown.id() == stage,
        shown->units == s.stage(stage as int).ids(),
    ensures
        shown.reconciled(advances(s.emitted(s.next_action(now), draw))) == (BlockState::MapBuffer {
            id: stage,
            duration: shown->MapBuffer_duration,
            buffered: shown->MapBuffer_buffered,
            units: s.stepped(now, draw).stage(stage as int).ids(),
        }),
        shown.places_all(advances(s.emitted(s.next_action(now), draw))),
{
    let a = s.next_action(now);
    let t = s.stepped(now, draw);
    let none = Seq::<StreamUpdate>::empty();
    let ids = s.stage(stage as int).ids();
    lemma_next_action_enabled(s, now);
    reveal_with_fuel(BlockState::after_arrivals, 2);
    reveal_with_fuel(BlockState::after_departures, 2);
    reveal_with_fuel(BlockState::places_all, 2);
    match a {
        Action::Admit { stage: k, slot } => {
            let id = s.admitted_id(k as int, slot as int);
            let made = spec_created(id);
            let adv = UnitAdvanceBlockEvent {
                id,
                block_id: k as u32,
                from_block_id: (k - 1) as u32,
            };
            let first = if k == 1 {
                none.push(made)
            } else {
                none
            };
            lemma_event_added(none, made);
            lemma_event_added(first, StreamUpdate::AdvanceBlock(adv));
            lemma_event_added(
                first.push(StreamUpdate::AdvanceBlock(adv)),
                spec_pending(id, k as u32),
            );
            let moves = seq![adv];
            assert(advances(s.emitted(a, draw)) =~= moves);
            assert(moves.drop_last() =~= Seq::<UnitAdvanceBlockEvent>::empty());
            if k == stage {
                assert(t.stage(stage as int).ids() =~= ids.push(id));
            } else if k - 1 == stage {
                assert(ids.no_duplicates()) by {
                    assert forall|i: int, j: int|
                        0 <= i < ids.len() && 0 <= j < ids.len() && i != j implies ids[i]
                        != ids[j] by {
                        assert(s.stages[stage - 1].works[i].unit.id != s.stages[stage
                            - 1].works[j].unit.id);
                    }
                }
                lemma_without_first(ids);
                assert(t.stage(stage as int).ids() =~= ids.drop_first());
            } else {
                assert(t.stage(stage as int).ids() =~= ids);
            }
        },
        Action::Start { stage: k, slot } => {
            lemma_event_added(none, s.emitted(a, draw)[0]);
            assert(s.emitted(a, draw) =~= none.push(s.emitted(a, draw)[0]));
            assert(t.stage(stage as int).ids() =~= ids);
        },
        Action::Tick { stage: k, slot } => {
            let w = s.stage(k as int).works[slot as int];
            let e = s.emitted(a, draw)[0];
            lemma_event_added(none, e);
            if s.drops(k as int, slot as int, draw) {
                lemma_event_added(none.push(e), spec_rejected(w.unit.id));
                assert(s.emitted(a, draw) =~= none.push(e).push(spec_rejected(w.unit.id)));
            } else {
                assert(s.emitted(a, draw) =~= none.push(e));
            }
            assert(t.stage(stage as int).ids() =~= ids);
        },
        _ => {
            assert(t.stage(stage as int).ids() =~= ids);
        },
    }
}

/// The descriptors of a pipeline depend on nothing but the stages it was
/// configured with: two builders that were given the same stages hold the
/// same descriptors, in the same order, and their sinks give the same.
pub proof fn lemma_build_is_repeatable(first: StreamVisBuilder, second: StreamVisBuilder)
    requires
        first.wf(),
        second.wf(),
        first.spec_configs() == second.spec_configs(),
    ensures
        first.spec_blocks() == second.spec_blocks(),
        spec_pipeline(first.spec_configs()) == spec_pipeline(second.spec_configs()),
{
}

/// The descriptors of a pipeline are numbered from 0 in the order of the
/// stages; the first is the source, the last the sink, and each stage
/// between them shows the kind, the duration and the bound that it was
/// configured with.
pub proof fn lemma_descriptors_numbered(configs: Seq<StageConfig>)
    requires
        configs.len() + 1 <= u32::MAX,
    ensures
        spec_pipeline(configs).len() == configs.len() + 2,
        forall|i: int|
            0 <= i < spec_pipeline(configs).len() ==> (#[trigger] spec_pipeline(configs)[i]).id()
                == i,
        spec_pipeline(configs)[0] == (BlockState::Source { id: 0 }),
        spec_pipeline(configs).last() == (BlockState::Sink { id: (configs.len() + 1) as u32 }),
        forall|i: int|
            1 <= i <= configs.len() ==> #[trigger] spec_pipeline(configs)[i] == spec_descriptor(
                configs[i - 1],
                i as u32,
            ),
{
    assert forall|i: int| 0 <= i < spec_pipeline(configs).len() implies (#[trigger] spec_pipeline(
        configs,
    )[i]).id() == i by {
        if 0 < i <= configs.len() {
            assert(spec_pipeline(configs)[i] == spec_descriptor(configs[i - 1], i as u32));
        }
    }
}

} // verus!
