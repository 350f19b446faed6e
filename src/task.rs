use crate::time::Timestamp;
use crate::worker::WorkerId;
use vstd::prelude::*;

verus! {

/// Identifier of a task: the 128 bits of its UUID.
#[derive(Clone, Copy, Debug, PartialEq, Eq, Structural, PartialOrd, Ord, Hash)]
pub struct TaskId(pub u128);

impl TaskId {
    pub fn new(id: u128) -> (r: TaskId)
        ensures
            r.0 == id,
    {
        TaskId(id)
    }

    pub fn get(self) -> (r: u128)
        ensures
            r == self.0,
    {
        self.0
    }
}

impl From<u128> for TaskId {
    fn from(id: u128) -> (r: TaskId)
        ensures
            r.0 == id,
    {
        TaskId(id)
    }
}

impl vstd::std_specs::convert::FromSpecImpl<u128> for TaskId {
    open spec fn obeys_from_spec() -> bool {
        true
    }

    open spec fn from_spec(id: u128) -> TaskId {
        TaskId(id)
    }
}

/// Lifecycle state of a persisted task.
#[derive(Clone, Copy, Debug, PartialEq, Eq, Structural, Hash)]
pub enum TaskStatus {
    /// Waiting for the supervisor to dispatch it. Next state: `Dispatched`.
    Pending,
    /// Assigned to a worker, waiting to get started. Next state: `Running`.
    Dispatched,
    /// Started and currently running. Next state: `Succeeded`, `Failed` or
    /// `Interrupted`.
    Running,
    /// Completed successfully.
    Succeeded,
    /// Completed unsuccessfully.
    Failed,
    /// The worker crashed or disappeared during the task's execution. Next
    /// state: `Succeeded` or `Failed`.
    Interrupted,
}

/// The edges of the task lifecycle graph.
pub open spec fn is_edge(from: TaskStatus, to: TaskStatus) -> bool {
    match (from, to) {
        (TaskStatus::Pending, TaskStatus::Dispatched) => true,
        (TaskStatus::Dispatched, TaskStatus::Running) => true,
        (TaskStatus::Running, TaskStatus::Succeeded) => true,
        (TaskStatus::Running, TaskStatus::Failed) => true,
        (TaskStatus::Running, TaskStatus::Interrupted) => true,
        (TaskStatus::Interrupted, TaskStatus::Succeeded) => true,
        (TaskStatus::Interrupted, TaskStatus::Failed) => true,
        _ => false,
    }
}

/// A status either stays as it is or moves along one edge of the graph.
pub open spec fn is_step(from: TaskStatus, to: TaskStatus) -> bool {
    from == to || is_edge(from, to)
}

/// Depth of a status in the lifecycle graph; every edge increases it.
pub open spec fn rank(s: TaskStatus) -> nat {
    match s {
        TaskStatus::Pending => 0,
        TaskStatus::Dispatched => 1,
        TaskStatus::Running => 2,
        TaskStatus::Interrupted => 3,
        TaskStatus::Succeeded => 4,
        TaskStatus::Failed => 4,
    }
}

pub open spec fn is_terminal(s: TaskStatus) -> bool {
    s == TaskStatus::Succeeded || s == TaskStatus::Failed
}

/// No edge leaves a terminal status, and every edge strictly increases the
/// rank.
pub proof fn lemma_edge_increases_rank(from: TaskStatus, to: TaskStatus)
    ensures
        is_edge(from, to) ==> rank(from) < rank(to),
        is_terminal(from) ==> !is_edge(from, to),
{
}

/// Along any path of the lifecycle graph the rank strictly increases, so no
/// path ever comes back to a status it has already left: a task never
/// reaches a predecessor state.
pub proof fn lemma_no_path_returns(path: Seq<TaskStatus>)
    requires
        forall|k: int| 0 <= k < path.len() - 1 ==> is_edge(#[trigger] path[k], path[k + 1]),
    ensures
        forall|i: int, j: int| 0 <= i < j < path.len() ==> rank(path[i]) < rank(path[j]),
        forall|i: int, j: int| 0 <= i < j < path.len() ==> path[i] != path[j],
    decreases path.len(),
{
    if path.len() > 1 {
        let prefix = path.drop_last();
        assert forall|k: int| 0 <= k < prefix.len() - 1 implies is_edge(
            #[trigger] prefix[k],
            prefix[k + 1],
        ) by {
            assert(prefix[k] == path[k] && prefix[k + 1] == path[k + 1]);
        }
        lemma_no_path_returns(prefix);
        let n = path.len() - 1;
        assert(is_edge(path[n - 1], path[n]));
        assert forall|i: int, j: int| 0 <= i < j < path.len() implies rank(path[i]) < rank(
            path[j],
        ) by {
            if j < n {
                assert(prefix[i] == path[i] && prefix[j] == path[j]);
            } else if i < n - 1 {
                assert(prefix[i] == path[i] && prefix[n - 1] == path[n - 1]);
            }
        }
    }
}

/// The workload a task runs.
#[derive(Clone, Copy, Debug, PartialEq, Eq, Structural, Hash)]
pub enum TaskDef {
    Foo,
    Bar,
    Baz,
}

/// What a running task is told about itself.
#[derive(Clone, Copy, Debug, PartialEq, Eq, Structural)]
pub struct TaskContext {
    pub id: TaskId,
}

/// A row of the task table.
#[derive(Clone, Copy, Debug, PartialEq, Eq, Structural)]
pub struct Task {
    pub id: TaskId,
    pub def: TaskDef,
    pub worker_id: Option<WorkerId>,
    pub status: TaskStatus,
    pub created_at: Timestamp,
    pub updated_at: Timestamp,
    pub scheduled_at: Option<Timestamp>,
}

impl Task {
    /// A pending task has no worker; a dispatched, running or interrupted one
    /// has one.
    pub open spec fn wf(self) -> bool {
        &&& self.status == TaskStatus::Pending ==> self.worker_id is None
        &&& (self.status == TaskStatus::Dispatched || self.status == TaskStatus::Running
            || self.status == TaskStatus::Interrupted) ==> self.worker_id is Some
    }

    /// A freshly created task.
    pub open spec fn created(
        id: TaskId,
        def: TaskDef,
        created_at: Timestamp,
        scheduled_at: Option<Timestamp>,
    ) -> Task {
        Task {
            id,
            def,
            worker_id: None,
            status: TaskStatus::Pending,
            created_at,
            updated_at: created_at,
            scheduled_at,
        }
    }

    pub open spec fn can_dispatch(self) -> bool {
        self.status == TaskStatus::Pending
    }

    pub open spec fn can_begin(self) -> bool {
        self.status == TaskStatus::Dispatched
    }

    pub open spec fn can_complete(self) -> bool {
        self.status == TaskStatus::Running || self.status == TaskStatus::Interrupted
    }

    /// `pending -> dispatched`, assigning the worker; other rows stay as they are.
    pub open spec fn after_dispatch(self, worker_id: WorkerId, now: Timestamp) -> Task {
        if self.can_dispatch() {
            Task {
                worker_id: Some(worker_id),
                status: TaskStatus::Dispatched,
                updated_at: now,
                ..self
            }
        } else {
            self
        }
    }

    /// `dispatched -> running`; other rows stay as they are.
    pub open spec fn after_begin(self, now: Timestamp) -> Task {
        if self.can_begin() {
            Task { status: TaskStatus::Running, updated_at: now, ..self }
        } else {
            self
        }
    }

    /// `{running, interrupted} -> succeeded / failed`; other rows stay as they
    /// are.
    pub open spec fn after_complete(self, succeeded: bool, now: Timestamp) -> Task {
        if self.can_complete() {
            Task { status: completion_status(succeeded), updated_at: now, ..self }
        } else {
            self
        }
    }

    pub fn new(
        id: TaskId,
        def: TaskDef,
        created_at: Timestamp,
        scheduled_at: Option<Timestamp>,
    ) -> (r: Task)
        ensures
            r == Task::created(id, def, created_at, scheduled_at),
            r.wf(),
    {
        Task {
            id,
            def,
            worker_id: None,
            status: TaskStatus::Pending,
            created_at,
            updated_at: created_at,
            scheduled_at,
        }
    }

    /// Moves a pending task to `dispatched` on `worker_id`; returns whether it
    /// did. Any other task is left unchanged.
    pub fn dispatch(&mut self, worker_id: WorkerId, now: Timestamp) -> (r: bool)
        ensures
            r == old(self).can_dispatch(),
            *final(self) == old(self).after_dispatch(worker_id, now),
            is_step(old(self).status, final(self).status),
            old(self).wf() ==> final(self).wf(),
    {
        if self.status == TaskStatus::Pending {
            self.worker_id = Some(worker_id);
            self.status = TaskStatus::Dispatched;
            self.updated_at = now;
            true
        } else {
            false
        }
    }

    /// Moves a dispatched task to `running`; returns whether it did. Any other
    /// task is left unchanged.
    pub fn begin(&mut self, now: Timestamp) -> (r: bool)
        ensures
            r == old(self).can_begin(),
            *final(self) == old(self).after_begin(now),
            is_step(old(self).status, final(self).status),
            old(self).wf() ==> final(self).wf(),
    {
        if self.status == TaskStatus::Dispatched {
            self.status = TaskStatus::Running;
            self.updated_at = now;
            true
        } else {
            false
        }
    }

    /// Moves a running or interrupted task to `succeeded` or `failed`; returns
    /// whether it did. Any other task is left unchanged.
    pub fn complete(&mut self, succeeded: bool, now: Timestamp) -> (r: bool)
        ensures
            r == old(self).can_complete(),
            *final(self) == old(self).after_complete(succeeded, now),
            is_step(old(self).status, final(self).status),
            old(self).wf() ==> final(self).wf(),
    {
        match self.status {
            TaskStatus::Running | TaskStatus::Interrupted => {
                self.status = if succeeded {
                    TaskStatus::Succeeded
                } else {
                    TaskStatus::Failed
                };
                self.updated_at = now;
                true
            },
            _ => false,
        }
    }
}

pub open spec fn completion_status(succeeded: bool) -> TaskStatus {
    if succeeded {
        TaskStatus::Succeeded
    } else {
        TaskStatus::Failed
    }
}

} // verus!
