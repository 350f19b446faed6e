use crate::supervisor::notification::SupervisorNotification;
use crate::task::{TaskDef, TaskId};
use crate::worker::notification::WorkerNotification;
use crate::worker::{WorkerId, WorkerStatus};
use vstd::prelude::*;

verus! {

/// Where a worker stands in handling a task.
#[derive(Clone, Copy, Debug, PartialEq, Eq, Structural)]
pub enum Phase {
    /// Waiting for a `TaskDispatched` notification.
    Waiting,
    /// Waiting for `begin_task` to return.
    Beginning { id: TaskId },
    /// The task's workload is running.
    Running { id: TaskId },
    /// Waiting for `complete_task` to return.
    Completing { id: TaskId },
}

/// What the worker's loop hands to the decisions.
#[derive(Clone, Copy, Debug, PartialEq, Eq, Structural)]
pub enum WorkerEvent {
    Notified(WorkerNotification),
    /// `begin_task` returned the task's definition.
    Began(TaskDef),
    /// The workload returned; `true` on success.
    Ran(bool),
    /// `complete_task` returned.
    Completed,
}

/// What the worker's loop is to do next.
#[derive(Clone, Copy, Debug, PartialEq, Eq, Structural)]
pub enum WorkerAction {
    /// Store `Busy` as the worker's status, then call `begin_task(id)`.
    Begin { id: TaskId },
    /// Run the workload `def` of task `id`.
    Run { id: TaskId, def: TaskDef },
    /// Call `complete_task(id, succeeded)`.
    Complete { id: TaskId, succeeded: bool },
    /// Store `Idle` as the worker's status, then publish `notif` on the
    /// supervisor's channel.
    Announce { notif: SupervisorNotification },
}

/// The decisions of a worker's loop: one task at a time, marked busy before
/// it begins, completed with the workload's outcome, then announced idle.
#[derive(Clone, Copy, Debug, PartialEq, Eq, Structural)]
pub struct WorkerSession {
    pub id: WorkerId,
    pub phase: Phase,
}

/// The next phase and action for an event; `None` for an event that does
/// not fit the phase.
pub open spec fn next_step(id: WorkerId, phase: Phase, ev: WorkerEvent) -> Option<(Phase, WorkerAction)> {
    match (phase, ev) {
        (Phase::Waiting, WorkerEvent::Notified(WorkerNotification::TaskDispatched { id: t })) => Some(
            (Phase::Beginning { id: t }, WorkerAction::Begin { id: t }),
        ),
        (Phase::Beginning { id: t }, WorkerEvent::Began(def)) => Some(
            (Phase::Running { id: t }, WorkerAction::Run { id: t, def }),
        ),
        (Phase::Running { id: t }, WorkerEvent::Ran(ok)) => Some(
            (Phase::Completing { id: t }, WorkerAction::Complete { id: t, succeeded: ok }),
        ),
        (Phase::Completing { .. }, WorkerEvent::Completed) => Some(
            (
                Phase::Waiting,
                WorkerAction::Announce { notif: SupervisorNotification::WorkerIdle { id } },
            ),
        ),
        _ => None,
    }
}

/// The status a worker reports in a phase: idle only while waiting.
pub open spec fn phase_status(phase: Phase) -> WorkerStatus {
    match phase {
        Phase::Waiting => WorkerStatus::Idle,
        _ => WorkerStatus::Busy,
    }
}

/// A worker handles one task at a time, and each task once: a dispatch
/// starts a task (one `Begin`) only while the worker waits, and the task
/// then runs through `Run`, `Complete` and `Announce`, back to waiting; a
/// dispatch that arrives while a task is in hand yields no action.
pub proof fn lemma_one_task_at_a_time(
    id: WorkerId,
    phase: Phase,
    t: TaskId,
    def: TaskDef,
    ok: bool,
)
    ensures
        phase != Phase::Waiting ==> next_step(
            id,
            phase,
            WorkerEvent::Notified(WorkerNotification::TaskDispatched { id: t }),
        ) is None,
        ({
            let (p1, a1) = next_step(
                id,
                Phase::Waiting,
                WorkerEvent::Notified(WorkerNotification::TaskDispatched { id: t }),
            )->Some_0;
            let (p2, a2) = next_step(id, p1, WorkerEvent::Began(def))->Some_0;
            let (p3, a3) = next_step(id, p2, WorkerEvent::Ran(ok))->Some_0;
            let (p4, a4) = next_step(id, p3, WorkerEvent::Completed)->Some_0;
            &&& a1 == WorkerAction::Begin { id: t }
            &&& a2 == WorkerAction::Run { id: t, def }
            &&& a3 == WorkerAction::Complete { id: t, succeeded: ok }
            &&& a4 == WorkerAction::Announce { notif: SupervisorNotification::WorkerIdle { id } }
            &&& p4 == Phase::Waiting
        }),
{
}

impl WorkerSession {
    pub fn new(id: WorkerId) -> (r: WorkerSession)
        ensures
            r.id == id,
            r.phase == Phase::Waiting,
    {
        WorkerSession { id, phase: Phase::Waiting }
    }

    /// Advances on `ev` and returns the action to perform; an event that
    /// does not fit the current phase changes nothing and yields `None`.
    pub fn step(&mut self, ev: WorkerEvent) -> (r: Option<WorkerAction>)
        ensures
            final(self).id == old(self).id,
            match next_step(old(self).id, old(self).phase, ev) {
                Some((p, a)) => final(self).phase == p && r == Some(a),
                None => final(self).phase == old(self).phase && r is None,
            },
    {
        let next = match (self.phase, ev) {
            (Phase::Waiting, WorkerEvent::Notified(WorkerNotification::TaskDispatched { id: t })) => Some(
                (Phase::Beginning { id: t }, WorkerAction::Begin { id: t }),
            ),
            (Phase::Beginning { id: t }, WorkerEvent::Began(def)) => Some(
                (Phase::Running { id: t }, WorkerAction::Run { id: t, def }),
            ),
            (Phase::Running { id: t }, WorkerEvent::Ran(ok)) => Some(
                (Phase::Completing { id: t }, WorkerAction::Complete { id: t, succeeded: ok }),
            ),
            (Phase::Completing { .. }, WorkerEvent::Completed) => Some(
                (
                    Phase::Waiting,
                    WorkerAction::Announce {
                        notif: SupervisorNotification::WorkerIdle { id: self.id },
                    },
                ),
            ),
            _ => None,
        };
        match next {
            Some((p, a)) => {
                self.phase = p;
                Some(a)
            },
            None => None,
        }
    }

    /// The status this worker is to report now.
    pub fn status(&self) -> (r: WorkerStatus)
        ensures
            r == phase_status(self.phase),
    {
        match self.phase {
            Phase::Waiting => WorkerStatus::Idle,
            _ => WorkerStatus::Busy,
        }
    }
}

} // verus!
