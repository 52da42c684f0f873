//! What a sequence of events says about the units and the stages: the
//! questions that an observer of the event stream can answer without seeing
//! the pipeline.

use vstd::prelude::*;
use crate::events::{StreamUpdate, UnitAdvanceBlockEvent, UnitValueKind, spec_rejected};

verus! {

/// The identifiers of the units created, in the order of their creation.
pub open spec fn created_ids(h: Seq<StreamUpdate>) -> Seq<u32>
    decreases h.len(),
{
    if h.len() == 0 {
        Seq::empty()
    } else {
        let rest = created_ids(h.drop_last());
        match h.last() {
            StreamUpdate::Created(e) => rest.push(e.id),
            _ => rest,
        }
    }
}

/// The units that moved into stage `stage`, in the order of their arrival.
pub open spec fn entered(h: Seq<StreamUpdate>, stage: u32) -> Seq<u32>
    decreases h.len(),
{
    if h.len() == 0 {
        Seq::empty()
    } else {
        let rest = entered(h.drop_last(), stage);
        match h.last() {
            StreamUpdate::AdvanceBlock(e) => if e.block_id == stage {
                rest.push(e.id)
            } else {
                rest
            },
            _ => rest,
        }
    }
}

/// The units that moved on from stage `stage`, in the order of their
/// departure.
pub open spec fn left(h: Seq<StreamUpdate>, stage: u32) -> Seq<u32>
    decreases h.len(),
{
    if h.len() == 0 {
        Seq::empty()
    } else {
        let rest = left(h.drop_last(), stage);
        match h.last() {
            StreamUpdate::AdvanceBlock(e) => if e.from_block_id == stage {
                rest.push(e.id)
            } else {
                rest
            },
            _ => rest,
        }
    }
}

/// The moves from stage to stage, in order.
pub open spec fn advances(h: Seq<StreamUpdate>) -> Seq<UnitAdvanceBlockEvent>
    decreases h.len(),
{
    if h.len() == 0 {
        Seq::empty()
    } else {
        let rest = advances(h.drop_last());
        match h.last() {
            StreamUpdate::AdvanceBlock(e) => rest.push(e),
            _ => rest,
        }
    }
}

/// The stages that unit `id` moved into, in order.
pub open spec fn visits(h: Seq<StreamUpdate>, id: u32) -> Seq<u32>
    decreases h.len(),
{
    if h.len() == 0 {
        Seq::empty()
    } else {
        let rest = visits(h.drop_last(), id);
        match h.last() {
            StreamUpdate::AdvanceBlock(e) => if e.id == id {
                rest.push(e.block_id)
            } else {
                rest
            },
            _ => rest,
        }
    }
}

/// Some event is about unit `id`.
pub open spec fn mentions(h: Seq<StreamUpdate>, id: u32) -> bool
    decreases h.len(),
{
    h.len() > 0 && (h.last().spec_unit_id() == id || mentions(h.drop_last(), id))
}

/// A filter has dropped unit `id`.
pub open spec fn is_rejected(h: Seq<StreamUpdate>, id: u32) -> bool
    decreases h.len(),
{
    h.len() > 0 && (h.last() == spec_rejected(id) || is_rejected(h.drop_last(), id))
}

/// Work on unit `id` has been reported as started and not yet as finished:
/// the last value that the unit was given is a progress short of the last
/// tick.
pub open spec fn in_progress(h: Seq<StreamUpdate>, id: u32) -> bool
    decreases h.len(),
{
    if h.len() == 0 {
        false
    } else {
        match h.last() {
            StreamUpdate::ChangeValue(e) => if e.id == id {
                match e.value {
                    UnitValueKind::RunningFuture(p) => !p.spec_is_final(),
                    _ => false,
                }
            } else {
                in_progress(h.drop_last(), id)
            },
            _ => in_progress(h.drop_last(), id),
        }
    }
}

/// No event is about a unit that a filter has dropped before.
pub open spec fn silent_after_rejection(h: Seq<StreamUpdate>) -> bool
    decreases h.len(),
{
    h.len() > 0 ==> {
        &&& silent_after_rejection(h.drop_last())
        &&& !is_rejected(h.drop_last(), h.last().spec_unit_id())
    }
}

/// The identifiers below `n`, in order.
pub open spec fn first_ids(n: nat) -> Seq<u32> {
    Seq::new(n, |i: int| i as u32)
}

/// The stages from 1 to `n`, in order.
pub open spec fn stages_up_to(n: nat) -> Seq<u32> {
    Seq::new(n, |i: int| (i + 1) as u32)
}

/// The units that are in stage `stage` with work started and not finished.
pub open spec fn active(h: Seq<StreamUpdate>, stage: u32) -> Set<u32> {
    Set::new(|id: u32| in_progress(h, id) && visits(h, id).len() > 0 && visits(h, id).last() == stage)
}

/// At no point of the sequence, from its start to its end, were more than
/// `bound` units in stage `stage` with work started and not finished.
pub open spec fn never_exceeded(h: Seq<StreamUpdate>, stage: u32, bound: nat) -> bool
    decreases h.len(),
{
    &&& active(h, stage).finite()
    &&& active(h, stage).len() <= bound
    &&& h.len() > 0 ==> never_exceeded(h.drop_last(), stage, bound)
}

/// What one more event adds to each of the answers.
pub proof fn lemma_event_added(h: Seq<StreamUpdate>, e: StreamUpdate)
    ensures
        h.push(e).drop_last() == h,
        created_ids(h.push(e)) == (match e {
            StreamUpdate::Created(c) => created_ids(h).push(c.id),
            _ => created_ids(h),
        }),
        advances(h.push(e)) == (match e {
            StreamUpdate::AdvanceBlock(a) => advances(h).push(a),
            _ => advances(h),
        }),
        forall|stage: u32| #[trigger]
            entered(h.push(e), stage) == (match e {
                StreamUpdate::AdvanceBlock(a) => if a.block_id == stage {
                    entered(h, stage).push(a.id)
                } else {
                    entered(h, stage)
                },
                _ => entered(h, stage),
            }),
        forall|stage: u32| #[trigger]
            left(h.push(e), stage) == (match e {
                StreamUpdate::AdvanceBlock(a) => if a.from_block_id == stage {
                    left(h, stage).push(a.id)
                } else {
                    left(h, stage)
                },
                _ => left(h, stage),
            }),
        forall|id: u32| #[trigger]
            visits(h.push(e), id) == (match e {
                StreamUpdate::AdvanceBlock(a) => if a.id == id {
                    visits(h, id).push(a.block_id)
                } else {
                    visits(h, id)
                },
                _ => visits(h, id),
            }),
        forall|id: u32| #[trigger]
            mentions(h.push(e), id) == (e.spec_unit_id() == id || mentions(h, id)),
        forall|id: u32| #[trigger]
            is_rejected(h.push(e), id) == (e == spec_rejected(id) || is_rejected(h, id)),
        forall|id: u32| #[trigger]
            in_progress(h.push(e), id) == (match e {
                StreamUpdate::ChangeValue(c) => if c.id == id {
                    match c.value {
                        UnitValueKind::RunningFuture(p) => !p.spec_is_final(),
                        _ => false,
                    }
                } else {
                    in_progress(h, id)
                },
                _ => in_progress(h, id),
            }),
        silent_after_rejection(h.push(e)) == (silent_after_rejection(h) && !is_rejected(
            h,
            e.spec_unit_id(),
        )),
{
    assert(h.push(e).drop_last() =~= h);
}

/// A unit that no event is about has moved nowhere, was not dropped and is
/// not being worked on.
pub proof fn lemma_unmentioned(h: Seq<StreamUpdate>, id: u32)
    requires
        !mentions(h, id),
    ensures
        visits(h, id).len() == 0,
        !is_rejected(h, id),
        !in_progress(h, id),
    decreases h.len(),
{
    if h.len() > 0 {
        lemma_unmentioned(h.drop_last(), id);
    }
}

} // verus!
