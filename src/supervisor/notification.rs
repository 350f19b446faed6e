use crate::task::TaskId;
use crate::time::Timestamp;
use crate::worker::{WorkerId, WorkerStatus};
use vstd::prelude::*;

verus! {

/// Messages sent to the supervisor on its channel.
#[derive(Clone, Copy, Debug, PartialEq, Eq, Structural)]
pub enum SupervisorNotification {
    /// Worker `id` is alive. Since the supervisor discovers workers through
    /// heartbeats alone, the worker's status travels along, so that a freshly
    /// started supervisor knows whether the worker is busy.
    WorkerHeartbeat { id: WorkerId, status: WorkerStatus },
    /// Worker `id` finished its task and may get another one.
    WorkerIdle { id: WorkerId },
    /// Task `id` was created, to be run from `scheduled_at` on.
    TaskCreated { id: TaskId, scheduled_at: Option<Timestamp> },
}

} // verus!
