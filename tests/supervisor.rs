use chrono::NaiveDateTime;
use fcs::database::Database;
use fcs::supervisor::notification::SupervisorNotification;
use fcs::supervisor::tasks::PendingTasks;
use fcs::supervisor::workers::SupervisedWorkers;
use fcs::supervisor::{Assignment, SupervisorState};
use fcs::task::{TaskDef, TaskId, TaskStatus};
use fcs::time::Timestamp;
use fcs::worker::notification::WorkerNotification;
use fcs::worker::{WorkerId, WorkerStatus};

fn dt(s: &str) -> Timestamp {
    let at = NaiveDateTime::parse_from_str(s, "%Y-%m-%d %H:%M:%S").unwrap();
    Timestamp::from_micros(at.and_utc().timestamp_micros())
}

fn minutes(now: Timestamp, m: i64) -> Timestamp {
    Timestamp::from_micros(now.micros() + m * 60 * 1_000_000)
}

#[test]
fn test() {
    let mut target = PendingTasks::default();
    let now = dt("2018-01-01 12:00:00");

    target.push(TaskId::from(1), Some(dt("2018-01-01 13:00:00")), now);
    target.push(TaskId::from(2), None, now);
    target.push(TaskId::from(3), Some(dt("2018-01-01 12:30:00")), now);
    target.push(TaskId::from(4), Some(dt("2018-01-01 10:00:00")), now);
    target.push(TaskId::from(5), None, now);

    // Starts paused: nothing comes out although some tasks are ready.
    assert_eq!(None, target.poll(now));

    target.resume();

    // T=12:00
    assert_eq!(Some(TaskId::from(5)), target.poll(now));
    assert_eq!(Some(TaskId::from(4)), target.poll(now));
    assert_eq!(Some(TaskId::from(2)), target.poll(now));
    assert_eq!(None, target.poll(now));

    // T=12:31
    let now = minutes(now, 31);
    assert_eq!(Some(TaskId::from(3)), target.poll(now));
    assert_eq!(None, target.poll(now));

    // T=12:56
    let now = minutes(now, 25);
    assert_eq!(None, target.poll(now));

    // T=13:06
    let now = minutes(now, 10);
    assert_eq!(Some(TaskId::from(1)), target.poll(now));
    assert_eq!(None, target.poll(now));
}

#[test]
fn paused_queue_yields_nothing_until_resumed() {
    let mut q = PendingTasks::new();
    let now = dt("2018-01-01 12:00:00");
    q.resume();
    assert_eq!(None, q.poll(now));
    q.push(TaskId::from(10), None, now);
    q.push(TaskId::from(20), Some(dt("2018-01-01 11:00:00")), now);
    q.pause();
    assert_eq!(None, q.poll(dt("2030-01-01 00:00:00")));
    assert_eq!(2, q.len());
    assert!(!q.is_active());
    q.resume();
    assert_eq!(Some(TaskId::from(20)), q.poll(now));
    assert_eq!(Some(TaskId::from(10)), q.poll(now));
    assert_eq!(None, q.poll(now));
}

#[test]
fn push_at_now_is_ready_at_once_and_deadline_is_reported() {
    let mut q = PendingTasks::new();
    let now = dt("2018-01-01 12:00:00");
    q.resume();
    q.push(TaskId::from(1), Some(dt("2018-01-01 12:10:00")), now);
    assert_eq!(Some(dt("2018-01-01 12:10:00")), q.next_deadline());
    q.push(TaskId::from(2), Some(now), now);
    assert_eq!(None, q.next_deadline());
    assert_eq!(Some(TaskId::from(2)), q.poll(now));
    assert_eq!(None, q.poll(now));
    assert_eq!(Some(TaskId::from(1)), q.poll(dt("2018-01-01 12:10:00")));
}

#[test]
fn equal_deadlines_serve_larger_id_first() {
    let mut q = PendingTasks::new();
    let now = dt("2018-01-01 12:00:00");
    let at = Some(dt("2018-01-01 12:01:00"));
    q.push(TaskId::from(3), at, now);
    q.push(TaskId::from(9), at, now);
    q.push(TaskId::from(6), at, now);
    q.resume();
    let later = dt("2018-01-01 12:02:00");
    assert_eq!(Some(TaskId::from(9)), q.poll(later));
    assert_eq!(Some(TaskId::from(6)), q.poll(later));
    assert_eq!(Some(TaskId::from(3)), q.poll(later));
}

#[test]
fn choose_idling() {
    let mut target = SupervisedWorkers::default();
    let now = dt("2018-01-01 12:00:00");
    let w1 = WorkerId::from(1);
    let w2 = WorkerId::from(2);
    let w3 = WorkerId::from(3);

    target.add(w1, WorkerStatus::Idle, now);
    target.add(w2, WorkerStatus::Busy, now);
    target.add(w3, WorkerStatus::Idle, now);

    let mut seen = Vec::new();
    for _ in 0..2 {
        let actual = target.choose_idling().unwrap();
        assert!(actual == w1 || actual == w3);
        seen.push(actual);
    }
    assert_ne!(seen[0], seen[1]);

    assert!(target.choose_idling().is_none());
}

#[test]
fn gc() {
    let mut target = SupervisedWorkers::default();
    let w1 = WorkerId::from(1);
    let w2 = WorkerId::from(2);
    let w3 = WorkerId::from(3);

    target.add(w1, WorkerStatus::Idle, dt("2018-01-01 12:00:06"));
    target.add(w2, WorkerStatus::Idle, dt("2018-01-01 12:00:00"));
    target.add(w3, WorkerStatus::Idle, dt("2018-01-01 12:00:12"));

    let removed = target.gc(dt("2018-01-01 12:00:10"));

    // With a three-second timeout, w1 (last heard four seconds before) and
    // w2 (ten seconds before) are both gone; w3 was heard after `now`.
    let actual = target.worker_ids();
    let expected = vec![w3];

    assert_eq!(expected, actual);
    assert_eq!(vec![w1, w2], removed);
}

#[test]
fn gc_boundary_is_inclusive_and_drops_from_idle_set() {
    let mut target = SupervisedWorkers::new();
    let w = WorkerId::from(1);
    target.add(w, WorkerStatus::Idle, dt("2018-01-01 12:00:00"));
    assert_eq!(Vec::<WorkerId>::new(), target.gc(dt("2018-01-01 12:00:02")));
    assert_eq!(vec![w], target.gc(dt("2018-01-01 12:00:03")));
    assert!(target.is_empty());
    assert_eq!(None, target.choose_idling());
}

#[test]
fn later_heartbeats_do_not_change_idleness() {
    let mut target = SupervisedWorkers::new();
    let w = WorkerId::from(7);
    target.add(w, WorkerStatus::Busy, dt("2018-01-01 12:00:00"));
    target.add(w, WorkerStatus::Idle, dt("2018-01-01 12:00:05"));
    assert_eq!(None, target.choose_idling());
    assert_eq!(1, target.len());
    // The refreshed heartbeat keeps the worker alive past the first one's timeout.
    assert!(target.gc(dt("2018-01-01 12:00:07")).is_empty());

    target.mark_as_idle(w);
    assert_eq!(Some(w), target.choose_idling());

    target.mark_as_idle(WorkerId::from(8));
    assert_eq!(None, target.choose_idling());
}

#[test]
fn supervisor_requeues_and_pauses_without_idle_workers() {
    let mut s = SupervisorState::new();
    let now = dt("2018-01-01 12:00:00");
    let t = TaskId::from(1);
    s.handle_notification(SupervisorNotification::TaskCreated { id: t, scheduled_at: None }, now);
    assert_eq!(None, s.next_ready(now));

    let w = WorkerId::from(2);
    s.handle_notification(SupervisorNotification::WorkerHeartbeat { id: w, status: WorkerStatus::Busy }, now);
    assert_eq!(Some(t), s.next_ready(now));
    assert_eq!(Assignment::Requeued, s.assign(t, now));
    assert_eq!(None, s.next_ready(now));

    s.handle_notification(SupervisorNotification::WorkerIdle { id: w }, now);
    assert_eq!(Some(t), s.next_ready(now));
    assert_eq!(Assignment::Dispatch { task_id: t, worker_id: w }, s.assign(t, now));

    let removed = s.maintain(dt("2018-01-01 12:00:03"));
    assert_eq!(vec![w], removed);
    assert!(s.workers.is_empty());
}

#[test]
fn startup_double_observation() {
    let mut db = Database::new();
    let t0 = dt("2018-01-01 12:00:00");
    let w = WorkerId::from(1234);

    // The task is created while the supervisor is down.
    let t = db.create_task(TaskDef::Bar, t0, None).unwrap();

    let mut s = SupervisorState::new();
    s.process_backlog(&db.get_backlog(), t0);
    // The buffered notification of the same task arrives afterwards.
    s.handle_notification(SupervisorNotification::TaskCreated { id: t, scheduled_at: None }, t0);
    s.handle_notification(SupervisorNotification::WorkerHeartbeat { id: w, status: WorkerStatus::Idle }, t0);

    let mut sent = Vec::new();
    for _ in 0..2 {
        let ready = s.next_ready(t0).unwrap();
        assert_eq!(t, ready);
        match s.assign(ready, t0) {
            Assignment::Dispatch { task_id, worker_id } => {
                let affected = db.dispatch_task(task_id, worker_id, t0);
                if let Some(n) = SupervisorState::dispatched_notification(task_id, affected) {
                    sent.push(n);
                }
                // The worker is idle again for the second attempt.
                s.handle_notification(SupervisorNotification::WorkerIdle { id: worker_id }, t0);
            }
            Assignment::Requeued => panic!("a worker is idle"),
        }
    }
    assert_eq!(vec![WorkerNotification::TaskDispatched { id: t }], sent);
    assert_eq!(None, s.next_ready(t0));

    db.begin_task(t, t0).unwrap();
    db.complete_task(t, true, t0);
    assert_eq!(Some(TaskStatus::Succeeded), db.get_task_status(t));
}

#[test]
fn resumed_queue_serves_like_one_never_paused() {
    let now = dt("2018-01-01 12:00:00");
    let pushes = [
        (7, Some(dt("2018-01-01 12:05:00"))),
        (3, None),
        (9, Some(dt("2018-01-01 11:00:00"))),
        (4, Some(dt("2018-01-01 12:01:00"))),
        (8, Some(dt("2018-01-01 12:05:00"))),
    ];

    let mut paused = PendingTasks::new();
    let mut never = PendingTasks::new();
    never.resume();
    for (id, at) in pushes {
        paused.push(TaskId::from(id), at, now);
        never.push(TaskId::from(id), at, now);
        assert_eq!(None, paused.poll(dt("2019-01-01 00:00:00")));
    }
    paused.resume();

    let later = dt("2018-01-01 13:00:00");
    let mut a = Vec::new();
    let mut b = Vec::new();
    while let Some(id) = paused.poll(later) {
        a.push(id);
    }
    while let Some(id) = never.poll(later) {
        b.push(id);
    }
    let expected: Vec<TaskId> = [9, 3, 4, 8, 7].into_iter().map(TaskId::from).collect();
    assert_eq!(expected, a);
    assert_eq!(expected, b);
}

#[test]
fn create_task_on_empty_table_succeeds() {
    let mut db = Database::new();
    let now = dt("2018-01-01 12:00:00");
    let id = db.create_task(TaskDef::Foo, now, None).unwrap();
    assert_eq!(Some(TaskStatus::Pending), db.get_task_status(id));
}
