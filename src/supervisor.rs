pub mod notification;
pub mod tasks;
pub mod workers;

use crate::supervisor::notification::SupervisorNotification;
use crate::supervisor::tasks::{deadline_of, is_ready, PendingTask, PendingTasks};
use crate::supervisor::workers::{expired_ids, SupervisedWorker, SupervisedWorkers};
use crate::task::TaskId;
use crate::time::Timestamp;
use crate::worker::notification::WorkerNotification;
use crate::worker::{WorkerId, WorkerStatus};
use vstd::multiset::Multiset;
use vstd::prelude::*;

verus! {

/// What the supervisor does with a task that became ready.
#[derive(Clone, Copy, Debug, PartialEq, Eq, Structural)]
pub enum Assignment {
    /// Try to dispatch the task to this worker (in one transaction with the
    /// `TaskDispatched` notification).
    Dispatch { task_id: TaskId, worker_id: WorkerId },
    /// No worker is idle: the task went back to the queue, which is paused
    /// until a worker turns up.
    Requeued,
}

/// The supervisor's in-memory state: the roster of workers and the queue of
/// pending tasks. Both are rebuilt from scratch on every start, from the
/// backlog and the heartbeats.
#[derive(Debug)]
pub struct SupervisorState {
    pub workers: SupervisedWorkers,
    pub tasks: PendingTasks,
}

impl SupervisorState {
    pub open spec fn wf(&self) -> bool {
        self.workers.wf() && self.tasks.wf()
    }

    /// No workers, no tasks, queue paused.
    pub fn new() -> (r: SupervisorState)
        ensures
            r.wf(),
            r.workers.heard() == Map::<u128, SupervisedWorker>::empty(),
            r.workers.idle() == Set::<u128>::empty(),
            r.tasks.items() == Seq::<PendingTask>::empty(),
            !r.tasks.active(),
    {
        SupervisorState { workers: SupervisedWorkers::new(), tasks: PendingTasks::new() }
    }

    /// Queues every task of the backlog (the tasks created while the
    /// supervisor was down).
    #[verifier::loop_isolation(false)]
    pub fn process_backlog(&mut self, backlog: &Vec<(TaskId, Option<Timestamp>)>, now: Timestamp)
        requires
            old(self).wf(),
        ensures
            final(self).wf(),
            final(self).workers == old(self).workers,
            final(self).tasks.active() == old(self).tasks.active(),
            final(self).tasks.items().to_multiset() == old(self).tasks.items().to_multiset().add(
                backlog@.map_values(|e: (TaskId, Option<Timestamp>)| backlog_item(e, now)).to_multiset(),
            ),
    {
        broadcast use vstd::seq_lib::group_to_multiset_ensures;

        let ghost f = |e: (TaskId, Option<Timestamp>)| backlog_item(e, now);
        let mut i: usize = 0;
        assert(backlog@.subrange(0, 0).map_values(f) =~= Seq::<PendingTask>::empty());
        assert(old(self).tasks.items().to_multiset().add(Multiset::empty()) =~= old(self).tasks.items().to_multiset());
        while i < backlog.len()
            invariant
                self.wf(),
                i <= backlog@.len(),
                f == (|e: (TaskId, Option<Timestamp>)| backlog_item(e, now)),
                self.workers == old(self).workers,
                self.tasks.active() == old(self).tasks.active(),
                self.tasks.items().to_multiset() == old(self).tasks.items().to_multiset().add(
                    backlog@.subrange(0, i as int).map_values(f).to_multiset(),
                ),
            decreases backlog@.len() - i,
        {
            let (id, scheduled_at) = backlog[i];
            let ghost before = self.tasks.items();
            self.tasks.push(id, scheduled_at, now);
            proof {
                let item = backlog_item(backlog@[i as int], now);
                let after = self.tasks.items();
                let pos = choose|pos: int| 0 <= pos <= before.len() && after == before.insert(pos, item);
                lemma_insert_to_multiset(before, pos, item);
                assert(backlog@.subrange(0, i + 1).map_values(f) =~= backlog@.subrange(0, i as int).map_values(f).push(item));
                let m0 = old(self).tasks.items().to_multiset();
                let mb = backlog@.subrange(0, i as int).map_values(f).to_multiset();
                assert(m0.add(mb).insert(item) =~= m0.add(mb.insert(item)));
            }
            i = i + 1;
        }
        assert(backlog@.subrange(0, i as int) =~= backlog@);
    }

    /// Reacts to a notification: a heartbeat or an idle worker updates the
    /// roster and resumes the queue; a new task is queued.
    pub fn handle_notification(&mut self, notif: SupervisorNotification, now: Timestamp)
        requires
            old(self).wf(),
        ensures
            final(self).wf(),
            match notif {
                SupervisorNotification::WorkerHeartbeat { id, status } => {
                    &&& final(self).tasks.active()
                    &&& final(self).tasks.items() == old(self).tasks.items()
                    &&& final(self).workers.heard() == old(self).workers.heard().insert(
                        id.0,
                        SupervisedWorker { last_heard_at: now },
                    )
                    &&& final(self).workers.idle() == (if !old(self).workers.heard().contains_key(
                        id.0,
                    ) && status == WorkerStatus::Idle {
                        old(self).workers.idle().insert(id.0)
                    } else {
                        old(self).workers.idle()
                    })
                },
                SupervisorNotification::WorkerIdle { id } => {
                    &&& final(self).tasks.active()
                    &&& final(self).tasks.items() == old(self).tasks.items()
                    &&& final(self).workers.heard() == old(self).workers.heard()
                    &&& final(self).workers.idle() == (if old(self).workers.heard().contains_key(
                        id.0,
                    ) {
                        old(self).workers.idle().insert(id.0)
                    } else {
                        old(self).workers.idle()
                    })
                },
                SupervisorNotification::TaskCreated { id, scheduled_at } => {
                    &&& final(self).workers == old(self).workers
                    &&& final(self).tasks.active() == old(self).tasks.active()
                    &&& exists|pos: int|
                        0 <= pos <= old(self).tasks.items().len() && final(self).tasks.items()
                            == #[trigger] old(self).tasks.items().insert(
                            pos,
                            PendingTask { deadline: deadline_of(scheduled_at, now), id },
                        )
                },
            },
    {
        match notif {
            SupervisorNotification::WorkerHeartbeat { id, status } => {
                self.workers.add(id, status, now);
                self.tasks.resume();
            },
            SupervisorNotification::WorkerIdle { id } => {
                self.workers.mark_as_idle(id);
                self.tasks.resume();
            },
            SupervisorNotification::TaskCreated { id, scheduled_at } => {
                self.tasks.push(id, scheduled_at, now);
            },
        }
    }

    /// The next task to dispatch at `now`, taken off the queue; `None` when
    /// the queue is paused or its first task is not ready yet.
    pub fn next_ready(&mut self, now: Timestamp) -> (r: Option<TaskId>)
        requires
            old(self).wf(),
        ensures
            final(self).wf(),
            final(self).workers == old(self).workers,
            final(self).tasks.active() == old(self).tasks.active(),
            r is Some <==> (old(self).tasks.active() && old(self).tasks.items().len() > 0
                && is_ready(old(self).tasks.items()[0], now)),
            r is Some ==> r == Some(old(self).tasks.items()[0].id) && final(self).tasks.items()
                == old(self).tasks.items().drop_first(),
            r is None ==> final(self).tasks.items() == old(self).tasks.items(),
    {
        self.tasks.poll(now)
    }

    /// Picks an idle worker for ready task `task_id`. With none idle, the
    /// task goes back to the queue, ready at once, and the queue pauses.
    pub fn assign(&mut self, task_id: TaskId, now: Timestamp) -> (r: Assignment)
        requires
            old(self).wf(),
        ensures
            final(self).wf(),
            r is Requeued <==> old(self).workers.idle().len() == 0,
            r is Requeued ==> {
                &&& final(self).workers.heard() == old(self).workers.heard()
                &&& final(self).workers.idle() == old(self).workers.idle()
                &&& !final(self).tasks.active()
                &&& exists|pos: int|
                    0 <= pos <= old(self).tasks.items().len() && final(self).tasks.items()
                        == #[trigger] old(self).tasks.items().insert(
                        pos,
                        PendingTask { deadline: None, id: task_id },
                    )
            },
            r matches Assignment::Dispatch { task_id: t, worker_id: w } ==> {
                &&& t == task_id
                &&& final(self).tasks == old(self).tasks
                &&& old(self).workers.idle().contains(w.0)
                &&& final(self).workers.heard() == old(self).workers.heard()
                &&& final(self).workers.idle() == old(self).workers.idle().remove(w.0)
            },
    {
        match self.workers.choose_idling() {
            Some(worker_id) => Assignment::Dispatch { task_id, worker_id },
            None => {
                self.tasks.push(task_id, None, now);
                self.tasks.pause();
                Assignment::Requeued
            },
        }
    }

    /// What to publish once the dispatch of `task_id` to `worker_id` has been
    /// tried: `TaskDispatched` on the worker's channel when a row was
    /// affected (then commit); nothing when the dispatch lost a race (the task
    /// was deleted or observed twice; then roll back and go on).
    pub fn dispatched_notification(task_id: TaskId, affected: bool) -> (r: Option<
        WorkerNotification,
    >)
        ensures
            r == (if affected {
                Some(WorkerNotification::TaskDispatched { id: task_id })
            } else {
                None
            }),
    {
        if affected {
            Some(WorkerNotification::TaskDispatched { id: task_id })
        } else {
            None
        }
    }

    /// Periodic maintenance: drops the workers not heard from for the
    /// heartbeat timeout and returns their ids.
    pub fn maintain(&mut self, now: Timestamp) -> (r: Vec<WorkerId>)
        requires
            old(self).wf(),
        ensures
            final(self).wf(),
            final(self).tasks == old(self).tasks,
            final(self).workers.heard() == old(self).workers.heard().remove_keys(
                expired_ids(old(self).workers.heard(), now),
            ),
            final(self).workers.idle() == old(self).workers.idle().difference(
                expired_ids(old(self).workers.heard(), now),
            ),
            forall|x: WorkerId| #[trigger] r@.contains(x) <==> expired_ids(
                old(self).workers.heard(),
                now,
            ).contains(x.0),
    {
        self.workers.gc(now)
    }
}

/// The queue entry of a backlog row read at `now`.
pub open spec fn backlog_item(e: (TaskId, Option<Timestamp>), now: Timestamp) -> PendingTask {
    PendingTask { deadline: deadline_of(e.1, now), id: e.0 }
}

/// Inserting an element adds it to the multiset of elements.
proof fn lemma_insert_to_multiset<A>(s: Seq<A>, pos: int, x: A)
    requires
        0 <= pos <= s.len(),
    ensures
        s.insert(pos, x).to_multiset() == s.to_multiset().insert(x),
{
    broadcast use vstd::seq_lib::group_to_multiset_ensures;

    let t = s.insert(pos, x);
    assert(t.remove(pos) =~= s);
    assert(t[pos] == x);
    assert(t.contains(x));
    assert(t.to_multiset().remove(x) == s.to_multiset());
    assert(t.to_multiset() =~= s.to_multiset().insert(x));
}

} // verus!
