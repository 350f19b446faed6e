use crate::task::TaskId;
use vstd::prelude::*;

verus! {

/// Messages sent to a worker on its own channel.
#[derive(Clone, Copy, Debug, PartialEq, Eq, Structural)]
pub enum WorkerNotification {
    /// The supervisor assigned task `id` to this worker.
    TaskDispatched { id: TaskId },
}

} // verus!
