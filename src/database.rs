use crate::lemmas::lemma_filter_prefix_step;
use crate::task::{is_step, Task, TaskDef, TaskId, TaskStatus};
use crate::time::Timestamp;
use crate::worker::WorkerId;
use vstd::prelude::*;

verus! {

/// A row of the worker table.
#[derive(Clone, Copy, Debug, PartialEq, Eq, Structural)]
pub struct WorkerRow {
    pub id: WorkerId,
    pub last_heard_at: Timestamp,
}

/// Why a table operation did not go through.
#[derive(Clone, Copy, Debug, PartialEq, Eq, Structural)]
pub enum DbError {
    /// No row matched.
    NotFound,
    /// A row with the new row's id already exists.
    Conflict,
}

/// A predicated update of a task row.
#[derive(Clone, Copy, Debug, PartialEq, Eq, Structural)]
pub enum TaskUpdate {
    /// `pending -> dispatched` on a worker.
    Dispatch { worker_id: WorkerId, now: Timestamp },
    /// `dispatched -> running`.
    Begin { now: Timestamp },
    /// `{running, interrupted} -> succeeded / failed`.
    Complete { succeeded: bool, now: Timestamp },
}

/// Whether the update's predicate holds of the row.
pub open spec fn update_applies(t: Task, u: TaskUpdate) -> bool {
    match u {
        TaskUpdate::Dispatch { .. } => t.can_dispatch(),
        TaskUpdate::Begin { .. } => t.can_begin(),
        TaskUpdate::Complete { .. } => t.can_complete(),
    }
}

/// The row after the update (unchanged where the predicate fails).
pub open spec fn updated(t: Task, u: TaskUpdate) -> Task {
    match u {
        TaskUpdate::Dispatch { worker_id, now } => t.after_dispatch(worker_id, now),
        TaskUpdate::Begin { now } => t.after_begin(now),
        TaskUpdate::Complete { succeeded, now } => t.after_complete(succeeded, now),
    }
}

/// Applies the update to the rows of task `id`, as `update tasks ... where
/// id = $id and <predicate>` does.
pub open spec fn update_rows(rows: Seq<Task>, id: TaskId, u: TaskUpdate) -> Seq<Task> {
    rows.map_values(|t: Task| if t.id == id { updated(t, u) } else { t })
}

/// Whether some row of task `id` satisfies the update's predicate.
pub open spec fn update_matches(rows: Seq<Task>, id: TaskId, u: TaskUpdate) -> bool {
    exists|i: int| 0 <= i < rows.len() && (#[trigger] rows[i]).id == id && update_applies(rows[i], u)
}

pub open spec fn has_task(rows: Seq<Task>, id: TaskId) -> bool {
    exists|i: int| 0 <= i < rows.len() && (#[trigger] rows[i]).id == id
}

pub open spec fn task_ids_unique(rows: Seq<Task>) -> bool {
    forall|i: int, j: int|
        0 <= i < rows.len() && 0 <= j < rows.len() && i != j ==> (#[trigger] rows[i]).id != (
        #[trigger] rows[j]).id
}

pub open spec fn worker_ids_unique(rows: Seq<WorkerRow>) -> bool {
    forall|i: int, j: int|
        0 <= i < rows.len() && 0 <= j < rows.len() && i != j ==> (#[trigger] rows[i]).id != (
        #[trigger] rows[j]).id
}

pub open spec fn has_worker(rows: Seq<WorkerRow>, id: WorkerId) -> bool {
    exists|i: int| 0 <= i < rows.len() && (#[trigger] rows[i]).id == id
}

/// The row of worker `id` with `last_heard_at` set; other rows as they are.
pub open spec fn touch(r: WorkerRow, id: WorkerId, at: Timestamp) -> WorkerRow {
    if r.id == id {
        WorkerRow { last_heard_at: at, ..r }
    } else {
        r
    }
}

/// `update workers set last_heard_at = $at where id = $id`.
pub open spec fn touched(rows: Seq<WorkerRow>, id: WorkerId, at: Timestamp) -> Seq<WorkerRow> {
    rows.map_values(|r: WorkerRow| touch(r, id, at))
}

/// `insert into workers ... on conflict (id) do update set last_heard_at`.
pub open spec fn upserted(rows: Seq<WorkerRow>, id: WorkerId, at: Timestamp) -> Seq<WorkerRow> {
    if has_worker(rows, id) {
        touched(rows, id, at)
    } else {
        rows.push(WorkerRow { id, last_heard_at: at })
    }
}

/// The stored `last_heard_at` of worker `id`, if it has a row.
pub open spec fn last_heard(rows: Seq<WorkerRow>, id: WorkerId) -> Option<Timestamp> {
    if has_worker(rows, id) {
        Some(rows[choose|i: int| 0 <= i < rows.len() && (#[trigger] rows[i]).id == id].last_heard_at)
    } else {
        None
    }
}

pub open spec fn is_pending(t: Task) -> bool {
    t.status == TaskStatus::Pending
}

pub open spec fn backlog_entry(t: Task) -> (TaskId, Option<Timestamp>) {
    (t.id, t.scheduled_at)
}

/// Whether a row passes the optional filters of `find_tasks`.
pub open spec fn passes(t: Task, id: Option<TaskId>, status: Option<TaskStatus>) -> bool {
    (id is None || id == Some(t.id)) && (status is None || status == Some(t.status))
}

/// Relies on uuid's `Uuid::new_v4`: a random version-4 UUID, of which nothing
/// is promised here.
#[verifier::external_body]
fn fresh_uuid() -> (r: u128) {
    uuid::Uuid::new_v4().as_u128()
}

/// The task and worker tables, with the operations that the scheduler runs
/// on them. Every update is predicated on the row's current status, so that
/// a lost race (a second dispatch, a stale completion) changes nothing.
#[derive(Debug)]
pub struct Database {
    workers: Vec<WorkerRow>,
    tasks: Vec<Task>,
}

impl Database {
    pub closed spec fn worker_rows(&self) -> Seq<WorkerRow> {
        self.workers@
    }

    pub closed spec fn task_rows(&self) -> Seq<Task> {
        self.tasks@
    }

    /// Ids are unique in both tables, and every task row is well formed.
    pub open spec fn wf(&self) -> bool {
        &&& worker_ids_unique(self.worker_rows())
        &&& task_ids_unique(self.task_rows())
        &&& forall|i: int| 0 <= i < self.task_rows().len() ==> (#[trigger] self.task_rows()[i]).wf()
    }

    pub fn new() -> (r: Database)
        ensures
            r.wf(),
            r.worker_rows() == Seq::<WorkerRow>::empty(),
            r.task_rows() == Seq::<Task>::empty(),
    {
        Database { workers: Vec::new(), tasks: Vec::new() }
    }

    /// Sets `last_heard_at` of every row of worker `id`; returns whether one
    /// matched.
    #[verifier::loop_isolation(false)]
    fn touch_worker(&mut self, id: WorkerId, at: Timestamp) -> (r: bool)
        requires
            old(self).wf(),
        ensures
            final(self).wf(),
            final(self).task_rows() == old(self).task_rows(),
            final(self).worker_rows() == touched(old(self).worker_rows(), id, at),
            r == has_worker(old(self).worker_rows(), id),
    {
        let ghost before = self.workers@;
        let mut found = false;
        let mut i: usize = 0;
        while i < self.workers.len()
            invariant
                i <= self.workers@.len(),
                self.workers@.len() == before.len(),
                self.tasks@ == old(self).tasks@,
                forall|k: int| 0 <= k < i ==> #[trigger] self.workers@[k] == touch(before[k], id, at),
                forall|k: int| i <= k < before.len() ==> #[trigger] self.workers@[k] == before[k],
                found == exists|k: int| 0 <= k < i && (#[trigger] before[k]).id == id,
            decreases before.len() - i,
        {
            let row = self.workers[i];
            if row.id.0 == id.0 {
                self.workers.set(i, WorkerRow { last_heard_at: at, ..row });
                found = true;
            }
            i = i + 1;
        }
        assert(self.workers@ =~= touched(before, id, at));
        assert forall|a: int, b: int|
            0 <= a < self.workers@.len() && 0 <= b < self.workers@.len() && a != b implies (
            #[trigger] self.workers@[a]).id != (#[trigger] self.workers@[b]).id by {
            assert(self.workers@[a].id == before[a].id && self.workers@[b].id == before[b].id);
        }
        found
    }

    /// Upserts the row of worker `id`: inserts it, or sets its
    /// `last_heard_at` when it exists.
    pub fn create_worker(&mut self, id: WorkerId, last_heard_at: Timestamp)
        requires
            old(self).wf(),
        ensures
            final(self).wf(),
            final(self).task_rows() == old(self).task_rows(),
            final(self).worker_rows() == upserted(old(self).worker_rows(), id, last_heard_at),
            forall|x: WorkerId|
                #[trigger] last_heard(final(self).worker_rows(), x) == (if x == id {
                    Some(last_heard_at)
                } else {
                    last_heard(old(self).worker_rows(), x)
                }),
    {
        proof {
            assert forall|x: WorkerId| #[trigger] last_heard(upserted(old(self).worker_rows(), id, last_heard_at), x) == (if x == id {
                Some(last_heard_at)
            } else {
                last_heard(old(self).worker_rows(), x)
            }) by {
                lemma_upserted_last_heard(old(self).worker_rows(), id, last_heard_at, x);
            }
        }
        let found = self.touch_worker(id, last_heard_at);
        if !found {
            let ghost before = self.workers@;
            self.workers.push(WorkerRow { id, last_heard_at });
            assert forall|a: int, b: int|
                0 <= a < self.workers@.len() && 0 <= b < self.workers@.len() && a != b implies (
                #[trigger] self.workers@[a]).id != (#[trigger] self.workers@[b]).id by {
                if a < before.len() && b < before.len() {
                    assert(self.workers@[a] == before[a] && self.workers@[b] == before[b]);
                } else if a < before.len() {
                    assert(self.workers@[a] == before[a]);
                } else {
                    assert(self.workers@[b] == before[b]);
                }
            }
            assert(before =~= touched(before, id, last_heard_at));
        }
    }

    /// Sets `last_heard_at` of worker `id`; nothing happens when it has no
    /// row.
    pub fn update_worker(&mut self, id: WorkerId, last_heard_at: Timestamp)
        requires
            old(self).wf(),
        ensures
            final(self).wf(),
            final(self).task_rows() == old(self).task_rows(),
            final(self).worker_rows() == touched(old(self).worker_rows(), id, last_heard_at),
            forall|x: WorkerId|
                #[trigger] last_heard(final(self).worker_rows(), x) == (if x == id && has_worker(
                    old(self).worker_rows(),
                    x,
                ) {
                    Some(last_heard_at)
                } else {
                    last_heard(old(self).worker_rows(), x)
                }),
    {
        proof {
            assert forall|x: WorkerId| #[trigger] last_heard(touched(old(self).worker_rows(), id, last_heard_at), x) == (if x == id && has_worker(old(self).worker_rows(), x) {
                Some(last_heard_at)
            } else {
                last_heard(old(self).worker_rows(), x)
            }) by {
                lemma_touched_last_heard(old(self).worker_rows(), id, last_heard_at, x);
            }
        }
        self.touch_worker(id, last_heard_at);
    }

    /// Inserts a pending task with the given id, or fails with `Conflict`
    /// when the id is taken.
    #[verifier::loop_isolation(false)]
    pub fn create_task_with_id(
        &mut self,
        id: TaskId,
        def: TaskDef,
        created_at: Timestamp,
        scheduled_at: Option<Timestamp>,
    ) -> (r: Result<TaskId, DbError>)
        requires
            old(self).wf(),
        ensures
            final(self).wf(),
            final(self).worker_rows() == old(self).worker_rows(),
            has_task(old(self).task_rows(), id) ==> r == Err::<TaskId, DbError>(DbError::Conflict)
                && final(self).task_rows() == old(self).task_rows(),
            !has_task(old(self).task_rows(), id) ==> r == Ok::<TaskId, DbError>(id)
                && final(self).task_rows() == old(self).task_rows().push(
                Task::created(id, def, created_at, scheduled_at),
            ),
    {
        let mut i: usize = 0;
        while i < self.tasks.len()
            invariant
                i <= self.tasks@.len(),
                forall|k: int| 0 <= k < i ==> (#[trigger] self.tasks@[k]).id != id,
            decreases self.tasks@.len() - i,
        {
            if self.tasks[i].id.0 == id.0 {
                return Err(DbError::Conflict);
            }
            i = i + 1;
        }
        let ghost before = self.tasks@;
        let task = Task::new(id, def, created_at, scheduled_at);
        self.tasks.push(task);
        assert forall|a: int, b: int|
            0 <= a < self.tasks@.len() && 0 <= b < self.tasks@.len() && a != b implies (
            #[trigger] self.tasks@[a]).id != (#[trigger] self.tasks@[b]).id by {
            if a < before.len() && b < before.len() {
                assert(self.tasks@[a] == before[a] && self.tasks@[b] == before[b]);
            } else if a < before.len() {
                assert(self.tasks@[a] == before[a]);
            } else {
                assert(self.tasks@[b] == before[b]);
            }
        }
        assert forall|k: int| 0 <= k < self.tasks@.len() implies (#[trigger] self.tasks@[k]).wf() by {
            if k < before.len() {
                assert(self.tasks@[k] == before[k]);
            }
        }
        Ok(id)
    }

    /// Inserts a pending task under a fresh random id and returns that id;
    /// `Conflict` in the unlikely case that the id is taken.
    pub fn create_task(
        &mut self,
        def: TaskDef,
        created_at: Timestamp,
        scheduled_at: Option<Timestamp>,
    ) -> (r: Result<TaskId, DbError>)
        requires
            old(self).wf(),
        ensures
            final(self).wf(),
            final(self).worker_rows() == old(self).worker_rows(),
            r matches Ok(id) ==> !has_task(old(self).task_rows(), id) && final(self).task_rows()
                == old(self).task_rows().push(Task::created(id, def, created_at, scheduled_at)),
            r is Err ==> r == Err::<TaskId, DbError>(DbError::Conflict) && final(self).task_rows()
                == old(self).task_rows(),
            r is Err ==> old(self).task_rows().len() > 0,
    {
        let id = TaskId::new(fresh_uuid());
        self.create_task_with_id(id, def, created_at, scheduled_at)
    }

    /// Applies a predicated update to the rows of task `id`; returns the
    /// definition of a row it changed, if any.
    #[verifier::loop_isolation(false)]
    fn update_task(&mut self, id: TaskId, u: TaskUpdate) -> (r: Option<TaskDef>)
        requires
            old(self).wf(),
        ensures
            final(self).wf(),
            final(self).worker_rows() == old(self).worker_rows(),
            final(self).task_rows() == update_rows(old(self).task_rows(), id, u),
            r is Some <==> update_matches(old(self).task_rows(), id, u),
            r matches Some(def) ==> exists|i: int|
                0 <= i < old(self).task_rows().len() && (#[trigger] old(self).task_rows()[i]).id
                    == id && update_applies(old(self).task_rows()[i], u) && old(
                    self,
                ).task_rows()[i].def == def,
    {
        let ghost before = self.tasks@;
        let mut hit: Option<TaskDef> = None;
        let mut i: usize = 0;
        while i < self.tasks.len()
            invariant
                i <= self.tasks@.len(),
                self.tasks@.len() == before.len(),
                self.workers@ == old(self).workers@,
                forall|k: int|
                    0 <= k < i ==> #[trigger] self.tasks@[k] == (if before[k].id == id {
                        updated(before[k], u)
                    } else {
                        before[k]
                    }),
                forall|k: int| i <= k < before.len() ==> #[trigger] self.tasks@[k] == before[k],
                hit is Some <==> exists|k: int|
                    0 <= k < i && (#[trigger] before[k]).id == id && update_applies(before[k], u),
                hit matches Some(def) ==> exists|k: int|
                    0 <= k < i && (#[trigger] before[k]).id == id && update_applies(before[k], u)
                        && before[k].def == def,
            decreases before.len() - i,
        {
            let mut row = self.tasks[i];
            if row.id.0 == id.0 {
                let applied = match u {
                    TaskUpdate::Dispatch { worker_id, now } => row.dispatch(worker_id, now),
                    TaskUpdate::Begin { now } => row.begin(now),
                    TaskUpdate::Complete { succeeded, now } => row.complete(succeeded, now),
                };
                if applied {
                    hit = Some(row.def);
                }
                self.tasks.set(i, row);
            }
            i = i + 1;
        }
        assert(self.tasks@ =~= update_rows(before, id, u));
        assert forall|a: int, b: int|
            0 <= a < self.tasks@.len() && 0 <= b < self.tasks@.len() && a != b implies (
            #[trigger] self.tasks@[a]).id != (#[trigger] self.tasks@[b]).id by {
            assert(self.tasks@[a].id == before[a].id && self.tasks@[b].id == before[b].id);
        }
        hit
    }

    /// Moves task `task_id` from `pending` to `dispatched` on `worker_id`;
    /// returns whether a row was affected. A task in any other status is
    /// left unchanged.
    pub fn dispatch_task(&mut self, task_id: TaskId, worker_id: WorkerId, now: Timestamp) -> (r:
        bool)
        requires
            old(self).wf(),
        ensures
            final(self).wf(),
            final(self).worker_rows() == old(self).worker_rows(),
            final(self).task_rows() == update_rows(
                old(self).task_rows(),
                task_id,
                TaskUpdate::Dispatch { worker_id, now },
            ),
            r == update_matches(old(self).task_rows(), task_id, TaskUpdate::Dispatch { worker_id, now }),
            !r ==> final(self).task_rows() == old(self).task_rows(),
            forall|i: int|
                0 <= i < old(self).task_rows().len() ==> is_step(
                    #[trigger] old(self).task_rows()[i].status,
                    final(self).task_rows()[i].status,
                ),
    {
        let u = TaskUpdate::Dispatch { worker_id, now };
        let r = self.update_task(task_id, u);
        proof { lemma_update_rows(old(self).task_rows(), task_id, u); }
        r.is_some()
    }

    /// Moves task `id` from `dispatched` to `running` and returns its
    /// definition; `NotFound` when no dispatched task has that id.
    pub fn begin_task(&mut self, id: TaskId, now: Timestamp) -> (r: Result<TaskDef, DbError>)
        requires
            old(self).wf(),
        ensures
            final(self).wf(),
            final(self).worker_rows() == old(self).worker_rows(),
            final(self).task_rows() == update_rows(old(self).task_rows(), id, TaskUpdate::Begin { now }),
            r is Ok <==> update_matches(old(self).task_rows(), id, TaskUpdate::Begin { now }),
            r is Err ==> r == Err::<TaskDef, DbError>(DbError::NotFound) && final(self).task_rows()
                == old(self).task_rows(),
            r matches Ok(def) ==> exists|i: int|
                0 <= i < old(self).task_rows().len() && (#[trigger] old(self).task_rows()[i]).id
                    == id && old(self).task_rows()[i].can_begin() && old(self).task_rows()[i].def
                    == def,
            forall|i: int|
                0 <= i < old(self).task_rows().len() ==> is_step(
                    #[trigger] old(self).task_rows()[i].status,
                    final(self).task_rows()[i].status,
                ),
    {
        let u = TaskUpdate::Begin { now };
        let r = self.update_task(id, u);
        proof { lemma_update_rows(old(self).task_rows(), id, u); }
        match r {
            Some(def) => Ok(def),
            None => Err(DbError::NotFound),
        }
    }

    /// Moves task `id` from `running` or `interrupted` to `succeeded` or
    /// `failed`; a task in any other status is left unchanged.
    pub fn complete_task(&mut self, id: TaskId, succeeded: bool, now: Timestamp)
        requires
            old(self).wf(),
        ensures
            final(self).wf(),
            final(self).worker_rows() == old(self).worker_rows(),
            final(self).task_rows() == update_rows(
                old(self).task_rows(),
                id,
                TaskUpdate::Complete { succeeded, now },
            ),
            !update_matches(old(self).task_rows(), id, TaskUpdate::Complete { succeeded, now })
                ==> final(self).task_rows() == old(self).task_rows(),
            forall|i: int|
                0 <= i < old(self).task_rows().len() ==> is_step(
                    #[trigger] old(self).task_rows()[i].status,
                    final(self).task_rows()[i].status,
                ),
    {
        let u = TaskUpdate::Complete { succeeded, now };
        self.update_task(id, u);
        proof { lemma_update_rows(old(self).task_rows(), id, u); }
    }

    /// Deletes the row of task `id`, if any.
    #[verifier::loop_isolation(false)]
    pub fn delete_task(&mut self, id: TaskId)
        requires
            old(self).wf(),
        ensures
            final(self).wf(),
            final(self).worker_rows() == old(self).worker_rows(),
            final(self).task_rows() == old(self).task_rows().filter(|t: Task| t.id != id),
    {
        let ghost before = self.tasks@;
        let ghost keep = |t: Task| t.id != id;
        let mut kept: Vec<Task> = Vec::new();
        let mut i: usize = 0;
        while i < self.tasks.len()
            invariant
                i <= before.len(),
                self.tasks@ == before,
                kept@ == before.subrange(0, i as int).filter(keep),
            decreases before.len() - i,
        {
            proof {
                lemma_filter_prefix_step(before, i as int, keep);
            }
            let row = self.tasks[i];
            if row.id.0 != id.0 {
                kept.push(row);
            }
            i = i + 1;
        }
        assert(before.subrange(0, i as int) =~= before);
        proof {
            lemma_filter_keeps_rows(before, keep);
        }
        self.tasks = kept;
    }

    /// The rows that pass both optional filters, in table order.
    #[verifier::loop_isolation(false)]
    pub fn find_tasks(&self, id: Option<TaskId>, status: Option<TaskStatus>) -> (r: Vec<Task>)
        ensures
            r@ == self.task_rows().filter(|t: Task| passes(t, id, status)),
    {
        let ghost pred = |t: Task| passes(t, id, status);
        let mut out: Vec<Task> = Vec::new();
        let mut i: usize = 0;
        while i < self.tasks.len()
            invariant
                i <= self.tasks@.len(),
                out@ == self.tasks@.subrange(0, i as int).filter(pred),
            decreases self.tasks@.len() - i,
        {
            proof {
                lemma_filter_prefix_step(self.tasks@, i as int, pred);
            }
            let row = self.tasks[i];
            let id_ok = match id {
                None => true,
                Some(x) => x.0 == row.id.0,
            };
            let status_ok = match status {
                None => true,
                Some(s) => s == row.status,
            };
            if id_ok && status_ok {
                out.push(row);
            }
            i = i + 1;
        }
        assert(self.tasks@.subrange(0, i as int) =~= self.tasks@);
        out
    }

    /// The row of task `id`; `NotFound` when there is none.
    pub fn find_task(&self, id: TaskId) -> (r: Result<Task, DbError>)
        requires
            self.wf(),
        ensures
            r is Ok <==> has_task(self.task_rows(), id),
            r matches Ok(t) ==> exists|i: int|
                0 <= i < self.task_rows().len() && #[trigger] self.task_rows()[i] == t && t.id == id,
            r is Err ==> r == Err::<Task, DbError>(DbError::NotFound),
    {
        let found = self.find_tasks(Some(id), None);
        proof {
            let pred = |t: Task| passes(t, Some(id), None);
            broadcast use vstd::seq_lib::group_filter_ensures;
            if has_task(self.task_rows(), id) {
                let i = choose|i: int| 0 <= i < self.task_rows().len() && (#[trigger] self.task_rows()[i]).id == id;
                assert(pred(self.task_rows()[i]));
                assert(self.task_rows().filter(pred).contains(self.task_rows()[i]));
            }
            if found@.len() > 0 {
                let k = crate::lemmas::lemma_filter_member(self.task_rows(), pred, 0);
                assert(self.task_rows()[k] == found@[0]);
            }
        }
        if found.len() > 0 {
            Ok(found[0])
        } else {
            Err(DbError::NotFound)
        }
    }

    /// `(id, scheduled_at)` of every pending task, in table order.
    #[verifier::loop_isolation(false)]
    pub fn get_backlog(&self) -> (r: Vec<(TaskId, Option<Timestamp>)>)
        ensures
            r@ == self.task_rows().filter(|t: Task| is_pending(t)).map_values(
                |t: Task| backlog_entry(t),
            ),
    {
        let ghost pred = |t: Task| is_pending(t);
        let mut out: Vec<(TaskId, Option<Timestamp>)> = Vec::new();
        let mut i: usize = 0;
        while i < self.tasks.len()
            invariant
                i <= self.tasks@.len(),
                out@ == self.tasks@.subrange(0, i as int).filter(pred).map_values(
                    |t: Task| backlog_entry(t),
                ),
            decreases self.tasks@.len() - i,
        {
            proof {
                lemma_filter_prefix_step(self.tasks@, i as int, pred);
            }
            let row = self.tasks[i];
            if row.status == TaskStatus::Pending {
                out.push((row.id, row.scheduled_at));
            }
            assert(out@ =~= self.tasks@.subrange(0, i + 1).filter(pred).map_values(
                |t: Task| backlog_entry(t),
            ));
            i = i + 1;
        }
        assert(self.tasks@.subrange(0, i as int) =~= self.tasks@);
        out
    }

    /// The status of task `id`, if it has a row.
    pub fn get_task_status(&self, id: TaskId) -> (r: Option<TaskStatus>)
        requires
            self.wf(),
        ensures
            r is Some <==> has_task(self.task_rows(), id),
            r matches Some(s) ==> exists|i: int|
                0 <= i < self.task_rows().len() && (#[trigger] self.task_rows()[i]).id == id
                    && self.task_rows()[i].status == s,
    {
        match self.find_task(id) {
            Ok(t) => Some(t.status),
            Err(_) => None,
        }
    }

    /// The stored `last_heard_at` of worker `id`, if it has a row.
    #[verifier::loop_isolation(false)]
    pub fn get_worker_last_heard_at(&self, id: WorkerId) -> (r: Option<Timestamp>)
        requires
            self.wf(),
        ensures
            r == last_heard(self.worker_rows(), id),
    {
        let mut i: usize = 0;
        while i < self.workers.len()
            invariant
                i <= self.workers@.len(),
                forall|k: int| 0 <= k < i ==> (#[trigger] self.workers@[k]).id != id,
            decreases self.workers@.len() - i,
        {
            if self.workers[i].id.0 == id.0 {
                proof {
                    let rows = self.workers@;
                    let c = choose|c: int| 0 <= c < rows.len() && (#[trigger] rows[c]).id == id;
                    assert(c == i);
                }
                return Some(self.workers[i].last_heard_at);
            }
            i = i + 1;
        }
        None
    }
}


/// A predicated update changes only rows of its task, each by one step of
/// the lifecycle, and changes nothing when no row satisfies its predicate.
proof fn lemma_update_rows(rows: Seq<Task>, id: TaskId, u: TaskUpdate)
    ensures
        update_rows(rows, id, u).len() == rows.len(),
        forall|i: int|
            0 <= i < rows.len() ==> is_step(
                #[trigger] rows[i].status,
                update_rows(rows, id, u)[i].status,
            ),
        !update_matches(rows, id, u) ==> update_rows(rows, id, u) == rows,
{
    let out = update_rows(rows, id, u);
    if !update_matches(rows, id, u) {
        assert forall|i: int| 0 <= i < rows.len() implies #[trigger] out[i] == rows[i] by {
            if rows[i].id == id {
                assert(!update_applies(rows[i], u));
            }
        }
        assert(out =~= rows);
    }
}

/// Filtering keeps ids unique and rows well formed.
proof fn lemma_filter_keeps_rows(rows: Seq<Task>, pred: spec_fn(Task) -> bool)
    requires
        task_ids_unique(rows),
        forall|i: int| 0 <= i < rows.len() ==> (#[trigger] rows[i]).wf(),
    ensures
        task_ids_unique(rows.filter(pred)),
        forall|i: int| 0 <= i < rows.filter(pred).len() ==> (#[trigger] rows.filter(pred)[i]).wf(),
    decreases rows.len(),
{
    reveal(Seq::filter);
    if rows.len() > 0 {
        let prefix = rows.drop_last();
        assert forall|a: int, b: int|
            0 <= a < prefix.len() && 0 <= b < prefix.len() && a != b implies (
            #[trigger] prefix[a]).id != (#[trigger] prefix[b]).id by {
            assert(prefix[a] == rows[a] && prefix[b] == rows[b]);
        }
        assert forall|i: int| 0 <= i < prefix.len() implies (#[trigger] prefix[i]).wf() by {
            assert(prefix[i] == rows[i]);
        }
        lemma_filter_keeps_rows(prefix, pred);
        let f = prefix.filter(pred);
        if pred(rows.last()) {
            let g = rows.filter(pred);
            assert(g == f.push(rows.last()));
            assert forall|i: int| 0 <= i < f.len() implies (#[trigger] f[i]).id != rows.last().id by {
                let k = crate::lemmas::lemma_filter_member(prefix, pred, i);
                assert(prefix[k] == rows[k]);
            }
            assert forall|a: int, b: int|
                0 <= a < g.len() && 0 <= b < g.len() && a != b implies (#[trigger] g[a]).id != (
                #[trigger] g[b]).id by {
                if a < f.len() && b < f.len() {
                    assert(g[a] == f[a] && g[b] == f[b]);
                } else if a < f.len() {
                    assert(g[a] == f[a]);
                } else {
                    assert(g[b] == f[b]);
                }
            }
            assert forall|i: int| 0 <= i < g.len() implies (#[trigger] g[i]).wf() by {
                if i < f.len() {
                    assert(g[i] == f[i]);
                }
            }
        }
    }
}


/// A write to the worker table: `create_worker` (an upsert) or
/// `update_worker`, of worker `id` at instant `at`.
#[derive(Clone, Copy, Debug, PartialEq, Eq, Structural)]
pub struct WorkerWrite {
    pub upsert: bool,
    pub id: WorkerId,
    pub at: Timestamp,
}

/// The worker rows after the writes, applied in order.
pub open spec fn apply_worker_writes(rows: Seq<WorkerRow>, ws: Seq<WorkerWrite>) -> Seq<WorkerRow>
    decreases ws.len(),
{
    if ws.len() == 0 {
        rows
    } else {
        let before = apply_worker_writes(rows, ws.drop_last());
        let w = ws.last();
        if w.upsert {
            upserted(before, w.id, w.at)
        } else {
            touched(before, w.id, w.at)
        }
    }
}

/// The instant of the last write to worker `id` that took effect: an upsert
/// always does, an update only when the worker has a row.
pub open spec fn last_applied(initial: Option<Timestamp>, ws: Seq<WorkerWrite>, id: WorkerId) -> Option<
    Timestamp,
>
    decreases ws.len(),
{
    if ws.len() == 0 {
        initial
    } else {
        let before = last_applied(initial, ws.drop_last(), id);
        let w = ws.last();
        if w.id != id {
            before
        } else if w.upsert || before is Some {
            Some(w.at)
        } else {
            None
        }
    }
}

/// Setting `last_heard_at` of worker `id` keeps ids unique, changes that
/// worker's stored instant (if it has a row) and no other.
pub proof fn lemma_touched_last_heard(rows: Seq<WorkerRow>, id: WorkerId, at: Timestamp, x: WorkerId)
    requires
        worker_ids_unique(rows),
    ensures
        worker_ids_unique(touched(rows, id, at)),
        has_worker(touched(rows, id, at), x) == has_worker(rows, x),
        last_heard(touched(rows, id, at), x) == (if x == id && has_worker(rows, x) {
            Some(at)
        } else {
            last_heard(rows, x)
        }),
{
    let out = touched(rows, id, at);
    assert forall|i: int| 0 <= i < rows.len() implies (#[trigger] out[i]).id == rows[i].id by {}
    if has_worker(rows, x) {
        let i = choose|i: int| 0 <= i < rows.len() && (#[trigger] rows[i]).id == x;
        assert(out[i].id == x);
        let c = choose|c: int| 0 <= c < out.len() && (#[trigger] out[c]).id == x;
        assert(out[c].id == rows[c].id);
        assert(c == i);
    }
    if has_worker(out, x) {
        let c = choose|c: int| 0 <= c < out.len() && (#[trigger] out[c]).id == x;
        assert(rows[c].id == x);
    }
}

/// An upsert keeps ids unique and sets the stored instant of worker `id`,
/// and of no other.
pub proof fn lemma_upserted_last_heard(rows: Seq<WorkerRow>, id: WorkerId, at: Timestamp, x: WorkerId)
    requires
        worker_ids_unique(rows),
    ensures
        worker_ids_unique(upserted(rows, id, at)),
        last_heard(upserted(rows, id, at), x) == (if x == id {
            Some(at)
        } else {
            last_heard(rows, x)
        }),
{
    if has_worker(rows, id) {
        lemma_touched_last_heard(rows, id, at, x);
    } else {
        let out = upserted(rows, id, at);
        let n = rows.len() as int;
        assert(out == rows.push(WorkerRow { id, last_heard_at: at }));
        assert forall|a: int, b: int|
            0 <= a < out.len() && 0 <= b < out.len() && a != b implies (#[trigger] out[a]).id != (
            #[trigger] out[b]).id by {
            if a < n && b < n {
                assert(out[a] == rows[a] && out[b] == rows[b]);
            } else if a < n {
                assert(out[a] == rows[a]);
            } else {
                assert(out[b] == rows[b]);
            }
        }
        assert(out[n].id == id);
        if x == id {
            let c = choose|c: int| 0 <= c < out.len() && (#[trigger] out[c]).id == x;
            if c < n {
                assert(out[c] == rows[c]);
            }
        } else {
            if has_worker(rows, x) {
                let i = choose|i: int| 0 <= i < rows.len() && (#[trigger] rows[i]).id == x;
                assert(out[i] == rows[i]);
                let c = choose|c: int| 0 <= c < out.len() && (#[trigger] out[c]).id == x;
                if c < n {
                    assert(out[c] == rows[c]);
                }
                assert(c == i);
            }
            if has_worker(out, x) {
                let c = choose|c: int| 0 <= c < out.len() && (#[trigger] out[c]).id == x;
                assert(c < n);
                assert(out[c] == rows[c]);
            }
        }
    }
}

/// Over any sequence of `create_worker` and `update_worker` calls, the
/// stored `last_heard_at` of a worker is the instant of the last of them
/// that took effect on it.
pub proof fn lemma_last_heard_is_last_applied(rows: Seq<WorkerRow>, ws: Seq<WorkerWrite>, id: WorkerId)
    requires
        worker_ids_unique(rows),
    ensures
        worker_ids_unique(apply_worker_writes(rows, ws)),
        last_heard(apply_worker_writes(rows, ws), id) == last_applied(last_heard(rows, id), ws, id),
    decreases ws.len(),
{
    if ws.len() > 0 {
        lemma_last_heard_is_last_applied(rows, ws.drop_last(), id);
        let before = apply_worker_writes(rows, ws.drop_last());
        let w = ws.last();
        if w.upsert {
            lemma_upserted_last_heard(before, w.id, w.at, id);
        } else {
            lemma_touched_last_heard(before, w.id, w.at, id);
        }
    }
}

/// A task observed twice (once from the backlog, once from its
/// notification) is dispatched once: after a dispatch that affected its row,
/// a second dispatch, to any worker at any instant, affects no row and
/// leaves the table as it is.
pub proof fn lemma_second_dispatch_is_dropped(
    rows: Seq<Task>,
    id: TaskId,
    w1: WorkerId,
    t1: Timestamp,
    w2: WorkerId,
    t2: Timestamp,
)
    requires
        task_ids_unique(rows),
        update_matches(rows, id, TaskUpdate::Dispatch { worker_id: w1, now: t1 }),
    ensures
        !update_matches(
            update_rows(rows, id, TaskUpdate::Dispatch { worker_id: w1, now: t1 }),
            id,
            TaskUpdate::Dispatch { worker_id: w2, now: t2 },
        ),
        update_rows(
            update_rows(rows, id, TaskUpdate::Dispatch { worker_id: w1, now: t1 }),
            id,
            TaskUpdate::Dispatch { worker_id: w2, now: t2 },
        ) == update_rows(rows, id, TaskUpdate::Dispatch { worker_id: w1, now: t1 }),
{
    let u2 = TaskUpdate::Dispatch { worker_id: w2, now: t2 };
    let r1 = update_rows(rows, id, TaskUpdate::Dispatch { worker_id: w1, now: t1 });
    assert forall|i: int| 0 <= i < r1.len() && (#[trigger] r1[i]).id == id implies !update_applies(
        r1[i],
        u2,
    ) by {
        let k = choose|k: int|
            0 <= k < rows.len() && (#[trigger] rows[k]).id == id && rows[k].can_dispatch();
        assert(rows[i].id == id);
        assert(i == k);
    }
    lemma_update_rows(r1, id, u2);
}

/// A dispatched task, begun and completed with success, has succeeded, and
/// from then on no update (a second begin, completion or dispatch) changes
/// the table: the task succeeds exactly once.
pub proof fn lemma_task_succeeds_once(rows: Seq<Task>, id: TaskId, t1: Timestamp, t2: Timestamp, u: TaskUpdate)
    requires
        task_ids_unique(rows),
        has_task(rows, id),
        forall|i: int| 0 <= i < rows.len() && (#[trigger] rows[i]).id == id ==> rows[i].can_begin(),
    ensures
        ({
            let done = update_rows(
                update_rows(rows, id, TaskUpdate::Begin { now: t1 }),
                id,
                TaskUpdate::Complete { succeeded: true, now: t2 },
            );
            &&& forall|i: int|
                0 <= i < done.len() && (#[trigger] done[i]).id == id ==> done[i].status
                    == TaskStatus::Succeeded
            &&& !update_matches(done, id, u)
            &&& update_rows(done, id, u) == done
        }),
{
    let done = update_rows(
        update_rows(rows, id, TaskUpdate::Begin { now: t1 }),
        id,
        TaskUpdate::Complete { succeeded: true, now: t2 },
    );
    assert forall|i: int| 0 <= i < done.len() && (#[trigger] done[i]).id == id implies done[i].status
        == TaskStatus::Succeeded && !update_applies(done[i], u) by {
        assert(rows[i].id == id);
    }
    lemma_update_rows(done, id, u);
}

} // verus!
