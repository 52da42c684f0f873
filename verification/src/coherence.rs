//! How the state of a pipeline and the events that it has emitted belong
//! together.

use vstd::prelude::*;
use crate::events::StreamUpdate;
use crate::model::{EngineState, Work};
use crate::trace::{
    created_ids, entered, first_ids, in_progress, is_rejected, left, mentions, never_exceeded,
    silent_after_rejection, visits,
};

verus! {

/// The events tell of the work what the stage knows of it: the unit has
/// moved through `stage` stages, no filter has dropped it, and its work is
/// reported as under way exactly while it is running.
pub open spec fn witnessed(h: Seq<StreamUpdate>, w: Work, stage: int) -> bool {
    &&& visits(h, w.unit.id).len() == stage
    &&& !is_rejected(h, w.unit.id)
    &&& in_progress(h, w.unit.id) <==> w.phase is Running
}

impl EngineState {
    /// Stage `k` holds unit `id`.
    pub open spec fn holds(self, k: int, id: u32) -> bool {
        &&& 1 <= k <= self.stages.len()
        &&& exists|i: int|
            0 <= i < self.stage(k).works.len() && (#[trigger] self.stage(k).works[i]).unit.id == id
    }

    /// The units created so far are those that the source has counted.
    pub open spec fn created_in_order(self) -> bool {
        created_ids(self.history) == first_ids(self.next_id)
    }

    /// No event is about a unit that the source has yet to make.
    pub open spec fn future_unmentioned(self) -> bool {
        forall|id: u32| id >= self.next_id ==> !#[trigger] mentions(self.history, id)
    }

    /// Every unit that a stage holds is witnessed by the events.
    pub open spec fn works_witnessed(self) -> bool {
        forall|j: int, i: int|
            0 <= j < self.stages.len() && 0 <= i < self.stages[j].works.len() ==> witnessed(
                self.history,
                #[trigger] self.stages[j].works[i],
                j + 1,
            )
    }

    /// No stage holds a unit twice.
    pub open spec fn works_distinct(self) -> bool {
        forall|j: int, i1: int, i2: int|
            0 <= j < self.stages.len() && 0 <= i1 < self.stages[j].works.len() && 0 <= i2
                < self.stages[j].works.len() && i1 != i2 ==> (#[trigger] self.stages[j].works[i1]).unit.id
                != (#[trigger] self.stages[j].works[i2]).unit.id
    }

    /// Every unit has moved through the stages one by one, from the first.
    pub open spec fn paths_consecutive(self) -> bool {
        forall|id: u32, n: int|
            0 <= n < visits(self.history, id).len() ==> #[trigger] visits(self.history, id)[n] == n
                + 1
    }

    /// Every unit made so far was dropped, has reached the sink, or is held
    /// by the stage that it moved into last.
    pub open spec fn units_accounted(self) -> bool {
        forall|id: u32|
            id < self.next_id ==> {
                ||| is_rejected(self.history, id)
                ||| (#[trigger] visits(self.history, id)).len() == self.sink()
                ||| self.holds(visits(self.history, id).len() as int, id)
            }
    }

    /// Work is under way only on units that are inside the pipeline.
    pub open spec fn progress_inside(self) -> bool {
        forall|id: u32| #[trigger]
            in_progress(self.history, id) ==> !is_rejected(self.history, id) && visits(
                self.history,
                id,
            ).len() < self.sink()
    }

    /// An ordered stage holds, oldest first, the units that came and have
    /// not gone, and those that have gone went in the order in which they
    /// came.
    pub open spec fn order_kept(self) -> bool {
        forall|j: int|
            0 <= j < self.stages.len() && (#[trigger] self.stages[j]).config.kind is Ordered
                ==> entered(self.history, (j + 1) as u32) == left(self.history, (j + 1) as u32)
                + self.stages[j].ids()
    }

    /// At no point so far has a stage had more units with work under way
    /// than its capacity.
    pub open spec fn bounded_throughout(self) -> bool {
        forall|j: int|
            0 <= j < self.stages.len() ==> never_exceeded(
                self.history,
                (j + 1) as u32,
                (#[trigger] self.stages[j]).config.capacity as nat,
            )
    }

    /// What the events and the state have to do with each other.
    pub open spec fn traced(self) -> bool {
        &&& self.created_in_order()
        &&& self.future_unmentioned()
        &&& self.works_witnessed()
        &&& self.works_distinct()
        &&& self.paths_consecutive()
        &&& self.units_accounted()
        &&& self.progress_inside()
        &&& self.order_kept()
        &&& silent_after_rejection(self.history)
    }
}

} // verus!
