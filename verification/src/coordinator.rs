//! Waiting for the reports of parallel workers: which event lets the
//! coordinator merge, which one fails the query, and what a cancellation
//! does. The caller owns the channels to the workers and hands in what
//! happens on them.

use vstd::prelude::*;
use crate::execution::ExecutionError;

verus! {

/// How far a parallel execution has come.
#[derive(Debug, Clone, Copy, PartialEq, Eq, Structural)]
pub enum Phase {
    /// Reports are still awaited.
    Collecting,
    /// Every worker has reported: the reports can be merged.
    Complete,
    /// A worker was lost: the query has failed.
    Failed,
    /// The query was cancelled: nothing is awaited any more.
    Cancelled,
}

/// What happened on the channel of a worker, or to the query.
#[derive(Debug, Clone, Copy, PartialEq, Eq, Structural)]
pub enum WorkerEvent {
    /// The worker with this index delivered its report.
    Reported { worker: usize },
    /// The channel of the worker with this index was closed.
    ChannelClosed { worker: usize },
    /// The enclosing query was cancelled.
    Cancelled,
}

/// What the caller has to do after an event.
#[derive(Debug, Clone, Copy, PartialEq, Eq, Structural)]
pub enum CoordinatorAction {
    /// Nothing: the event has no place in the current phase, or repeats a
    /// delivery.
    Ignore,
    /// Go on waiting.
    Wait,
    /// Merge the reports: all of them are there.
    Merge,
    /// Stop the other workers and fail the query.
    Abort(ExecutionError),
    /// Stop all workers and release what they hold; this is no failure.
    Unwind,
}

/// The coordinator of one parallel execution.
#[derive(Debug, PartialEq, Eq)]
pub struct Coordinator {
    /// For each worker, whether its report was delivered.
    pub reported: Vec<bool>,
    pub phase: Phase,
}

/// Whether every worker has reported.
pub open spec fn all_reported(reported: Seq<bool>) -> bool {
    forall|w: int| 0 <= w < reported.len() ==> #[trigger] reported[w]
}

/// The deliveries, the phase and the action after an event.
///
/// Only while reports are collected does an event count. A cancellation
/// ends the waiting at once. A first report of a worker is taken down, and
/// with the last one the execution is complete. A channel that closes
/// before its worker has reported fails the query.
pub open spec fn after_event(reported: Seq<bool>, phase: Phase, event: WorkerEvent) -> (
    Seq<bool>,
    Phase,
    CoordinatorAction,
) {
    if phase != Phase::Collecting {
        (reported, phase, CoordinatorAction::Ignore)
    } else {
        match event {
            WorkerEvent::Cancelled => (reported, Phase::Cancelled, CoordinatorAction::Unwind),
            WorkerEvent::Reported { worker } => if worker >= reported.len() || reported[worker as int] {
                (reported, phase, CoordinatorAction::Ignore)
            } else if all_reported(reported.update(worker as int, true)) {
                (reported.update(worker as int, true), Phase::Complete, CoordinatorAction::Merge)
            } else {
                (reported.update(worker as int, true), phase, CoordinatorAction::Wait)
            },
            WorkerEvent::ChannelClosed { worker } => if worker >= reported.len()
                || reported[worker as int] {
                (reported, phase, CoordinatorAction::Ignore)
            } else {
                (
                    reported,
                    Phase::Failed,
                    CoordinatorAction::Abort(ExecutionError::WorkerFailed { worker }),
                )
            },
        }
    }
}

/// Whether every worker has reported.
pub fn is_complete(reported: &Vec<bool>) -> (complete: bool)
    ensures
        complete == all_reported(reported@),
{
    let mut w: usize = 0;
    while w < reported.len()
        invariant
            w <= reported.len(),
            forall|k: int| 0 <= k < w ==> #[trigger] reported[k],
        decreases reported.len() - w,
    {
        if !reported[w] {
            return false;
        }
        w += 1;
    }
    true
}

impl Coordinator {
    /// The coordinator of an execution with `worker_count` workers, none of
    /// which has reported.
    pub fn new(worker_count: u32) -> (coordinator: Coordinator)
        requires
            worker_count >= 1,
        ensures
            coordinator.phase == Phase::Collecting,
            coordinator.reported@.len() == worker_count,
            forall|w: int| 0 <= w < worker_count ==> !(#[trigger] coordinator.reported@[w]),
    {
        let mut reported: Vec<bool> = Vec::new();
        let mut w: u32 = 0;
        while w < worker_count
            invariant
                w <= worker_count,
                reported.len() == w,
                forall|k: int| 0 <= k < w ==> !(#[trigger] reported[k]),
            decreases worker_count - w,
        {
            reported.push(false);
            w += 1;
        }
        Coordinator { reported, phase: Phase::Collecting }
    }

    /// Takes an event down and says what to do.
    ///
    /// The reports are merged only when every worker has delivered one, a
    /// lost worker fails the query, and after a failure, a cancellation or
    /// the last report no event changes anything.
    pub fn on_event(&mut self, event: WorkerEvent) -> (action: CoordinatorAction)
        ensures
            (final(self).reported@, final(self).phase, action) == after_event(
                old(self).reported@,
                old(self).phase,
                event,
            ),
            action == CoordinatorAction::Merge ==> all_reported(final(self).reported@),
            final(self).reported@.len() == old(self).reported@.len(),
    {
        match self.phase {
            Phase::Collecting => {},
            _ => {
                return CoordinatorAction::Ignore;
            },
        }
        match event {
            WorkerEvent::Cancelled => {
                self.phase = Phase::Cancelled;
                CoordinatorAction::Unwind
            },
            WorkerEvent::Reported { worker } => {
                if worker >= self.reported.len() || self.reported[worker] {
                    return CoordinatorAction::Ignore;
                }
                self.reported.set(worker, true);
                if is_complete(&self.reported) {
                    self.phase = Phase::Complete;
                    CoordinatorAction::Merge
                } else {
                    CoordinatorAction::Wait
                }
            },
            WorkerEvent::ChannelClosed { worker } => {
                if worker >= self.reported.len() || self.reported[worker] {
                    return CoordinatorAction::Ignore;
                }
                self.phase = Phase::Failed;
                CoordinatorAction::Abort(ExecutionError::WorkerFailed { worker })
            },
        }
    }
}

/// The phase after a run of events.
pub open spec fn phase_after(reported: Seq<bool>, phase: Phase, events: Seq<WorkerEvent>) -> Phase
    decreases events.len(),
{
    if events.len() == 0 {
        phase
    } else {
        after_event(
            deliveries_after(reported, phase, events.drop_last()),
            phase_after(reported, phase, events.drop_last()),
            events.last(),
        ).1
    }
}

/// The deliveries after a run of events.
pub open spec fn deliveries_after(reported: Seq<bool>, phase: Phase, events: Seq<WorkerEvent>)
    -> Seq<bool>
    decreases events.len(),
{
    if events.len() == 0 {
        reported
    } else {
        after_event(
            deliveries_after(reported, phase, events.drop_last()),
            phase_after(reported, phase, events.drop_last()),
            events.last(),
        ).0
    }
}

/// Once a worker is lost the query stays failed: whatever happens
/// afterwards, the phase is `Failed` and nothing is merged.
pub proof fn lemma_failure_is_final(reported: Seq<bool>, events: Seq<WorkerEvent>)
    ensures
        phase_after(reported, Phase::Failed, events) == Phase::Failed,
        deliveries_after(reported, Phase::Failed, events) == reported,
    decreases events.len(),
{
    if events.len() > 0 {
        lemma_failure_is_final(reported, events.drop_last());
    }
}

/// Once the query is cancelled nothing is awaited: whatever happens
/// afterwards, the phase is `Cancelled` and every event is ignored.
pub proof fn lemma_cancellation_is_final(reported: Seq<bool>, events: Seq<WorkerEvent>)
    ensures
        phase_after(reported, Phase::Cancelled, events) == Phase::Cancelled,
        deliveries_after(reported, Phase::Cancelled, events) == reported,
    decreases events.len(),
{
    if events.len() > 0 {
        lemma_cancellation_is_final(reported, events.drop_last());
    }
}

/// An execution is complete only with a report of every worker: over any
/// run of events from the start, the phase `Complete` means that all
/// workers have reported.
pub proof fn lemma_complete_means_all_reported(reported: Seq<bool>, events: Seq<WorkerEvent>)
    ensures
        phase_after(reported, Phase::Collecting, events) == Phase::Complete ==> all_reported(
            deliveries_after(reported, Phase::Collecting, events),
        ),
    decreases events.len(),
{
    if events.len() > 0 {
        lemma_complete_means_all_reported(reported, events.drop_last());
    }
}

} // verus!
