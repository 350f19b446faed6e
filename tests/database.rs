use chrono::NaiveDateTime;
use fcs::database::{Database, DbError};
use fcs::task::{TaskDef, TaskId, TaskStatus};
use fcs::time::Timestamp;
use fcs::worker::WorkerId;

fn dt(s: &str) -> Timestamp {
    let at = NaiveDateTime::parse_from_str(s, "%Y-%m-%d %H:%M:%S").unwrap();
    Timestamp::from_micros(at.and_utc().timestamp_micros())
}

#[test]
fn create_and_update_worker() {
    let mut db = Database::new();
    let id = WorkerId::new(1234);
    let expected = dt("2018-01-01 12:00:00");

    db.create_worker(id, expected);
    assert_eq!(Some(expected), db.get_worker_last_heard_at(id));

    let expected = dt("2018-01-01 12:30:00");
    db.create_worker(id, expected);
    assert_eq!(Some(expected), db.get_worker_last_heard_at(id));

    let expected = dt("2018-01-01 13:00:00");
    db.update_worker(id, expected);
    assert_eq!(Some(expected), db.get_worker_last_heard_at(id));
}

#[test]
fn create_task() {
    let mut db = Database::new();
    let def = TaskDef::Bar;
    let created_at = dt("2018-01-01 12:00:00");
    let scheduled_at = Some(dt("2018-01-02 10:00:00"));

    let id = db.create_task(def, created_at, scheduled_at).unwrap();
    let actual = db.find_task(id).unwrap();

    assert_eq!(def, actual.def);
    assert_eq!(None, actual.worker_id);
    assert_eq!(TaskStatus::Pending, actual.status);
    assert_eq!(created_at, actual.created_at);
    assert_eq!(created_at, actual.updated_at);
    assert_eq!(scheduled_at, actual.scheduled_at);
}

fn run_task_flow_simple(succeeded: bool) {
    let mut db = Database::new();
    let now = dt("2018-01-01 12:00:00");
    let worker_id = WorkerId::new(1234);

    db.create_worker(worker_id, now);

    let task_id = db.create_task(TaskDef::Bar, now, None).unwrap();

    let got_dispatched = db.dispatch_task(task_id, worker_id, now);
    let actual_status = db.get_task_status(task_id).unwrap();
    assert!(got_dispatched);
    assert_eq!(TaskStatus::Dispatched, actual_status);
    assert_eq!(Some(worker_id), db.find_task(task_id).unwrap().worker_id);

    let actual_def = db.begin_task(task_id, now).unwrap();
    let actual_status = db.get_task_status(task_id).unwrap();
    assert_eq!(TaskDef::Bar, actual_def);
    assert_eq!(TaskStatus::Running, actual_status);

    db.complete_task(task_id, succeeded, now);

    let expected = if succeeded {
        TaskStatus::Succeeded
    } else {
        TaskStatus::Failed
    };
    let actual = db.get_task_status(task_id).unwrap();
    assert_eq!(expected, actual);
}

#[test]
fn task_flow_simple() {
    run_task_flow_simple(true);
    run_task_flow_simple(false);
}

#[test]
fn test_double_dispatch() {
    let mut db = Database::new();
    let now = dt("2018-01-01 12:00:00");
    let worker_id = WorkerId::new(1234);

    db.create_worker(worker_id, now);
    let task_id = db.create_task(TaskDef::Bar, now, None).unwrap();

    let got_dispatched = db.dispatch_task(task_id, worker_id, now);
    assert!(got_dispatched);

    let got_dispatched = db.dispatch_task(task_id, worker_id, now);
    assert!(!got_dispatched);
    assert_eq!(Some(TaskStatus::Dispatched), db.get_task_status(task_id));
}

#[test]
fn dispatch_of_non_pending_task_changes_nothing() {
    let mut db = Database::new();
    let now = dt("2018-01-01 12:00:00");
    let w1 = WorkerId::new(1);
    let w2 = WorkerId::new(2);
    let task_id = db.create_task_with_id(TaskId::new(7), TaskDef::Foo, now, None).unwrap();
    assert!(db.dispatch_task(task_id, w1, now));
    db.begin_task(task_id, now).unwrap();
    let before = db.find_task(task_id).unwrap();

    let later = dt("2018-01-01 12:05:00");
    assert!(!db.dispatch_task(task_id, w2, later));
    assert_eq!(before, db.find_task(task_id).unwrap());
    assert_eq!(Some(w1), before.worker_id);
}

#[test]
fn dispatch_of_missing_task_is_not_affected() {
    let mut db = Database::new();
    let now = dt("2018-01-01 12:00:00");
    assert!(!db.dispatch_task(TaskId::new(99), WorkerId::new(1), now));
    assert!(db.find_tasks(None, None).is_empty());
}

#[test]
fn complete_of_pending_or_finished_task_changes_nothing() {
    let mut db = Database::new();
    let now = dt("2018-01-01 12:00:00");
    let later = dt("2018-01-01 12:10:00");
    let id = db.create_task_with_id(TaskId::new(5), TaskDef::Baz, now, None).unwrap();

    let before = db.find_task(id).unwrap();
    db.complete_task(id, true, later);
    assert_eq!(before, db.find_task(id).unwrap());

    assert!(db.dispatch_task(id, WorkerId::new(3), now));
    let dispatched = db.find_task(id).unwrap();
    db.complete_task(id, false, later);
    assert_eq!(dispatched, db.find_task(id).unwrap());

    db.begin_task(id, now).unwrap();
    db.complete_task(id, true, later);
    let done = db.find_task(id).unwrap();
    assert_eq!(TaskStatus::Succeeded, done.status);
    assert_eq!(later, done.updated_at);

    db.complete_task(id, false, dt("2018-01-01 12:20:00"));
    assert_eq!(done, db.find_task(id).unwrap());
}

#[test]
fn begin_of_pending_task_is_not_found() {
    let mut db = Database::new();
    let now = dt("2018-01-01 12:00:00");
    let id = db.create_task_with_id(TaskId::new(8), TaskDef::Foo, now, None).unwrap();
    assert_eq!(Err(DbError::NotFound), db.begin_task(id, now));
    assert_eq!(Some(TaskStatus::Pending), db.get_task_status(id));
    assert_eq!(Err(DbError::NotFound), db.begin_task(TaskId::new(9), now));
}

#[test]
fn create_task_with_taken_id_conflicts() {
    let mut db = Database::new();
    let now = dt("2018-01-01 12:00:00");
    assert_eq!(Ok(TaskId::new(1)), db.create_task_with_id(TaskId::new(1), TaskDef::Foo, now, None));
    assert_eq!(
        Err(DbError::Conflict),
        db.create_task_with_id(TaskId::new(1), TaskDef::Bar, now, None)
    );
    assert_eq!(TaskDef::Foo, db.find_task(TaskId::new(1)).unwrap().def);
    assert_eq!(1, db.find_tasks(None, None).len());
}

#[test]
fn create_task_ids_are_fresh() {
    let mut db = Database::new();
    let now = dt("2018-01-01 12:00:00");
    let a = db.create_task(TaskDef::Foo, now, None).unwrap();
    let b = db.create_task(TaskDef::Foo, now, None).unwrap();
    assert_ne!(a, b);
    assert_eq!(2, db.find_tasks(None, None).len());
}

#[test]
fn update_of_unknown_worker_is_a_no_op() {
    let mut db = Database::new();
    db.update_worker(WorkerId::new(4), dt("2018-01-01 12:00:00"));
    assert_eq!(None, db.get_worker_last_heard_at(WorkerId::new(4)));

    db.create_worker(WorkerId::new(4), dt("2018-01-01 12:00:00"));
    db.create_worker(WorkerId::new(5), dt("2018-01-01 12:00:01"));
    db.update_worker(WorkerId::new(4), dt("2018-01-01 12:00:02"));
    assert_eq!(Some(dt("2018-01-01 12:00:02")), db.get_worker_last_heard_at(WorkerId::new(4)));
    assert_eq!(Some(dt("2018-01-01 12:00:01")), db.get_worker_last_heard_at(WorkerId::new(5)));
}

#[test]
fn find_tasks_filters_and_backlog_lists_pending() {
    let mut db = Database::new();
    let now = dt("2018-01-01 12:00:00");
    let at = Some(dt("2018-01-01 13:00:00"));
    db.create_task_with_id(TaskId::new(1), TaskDef::Foo, now, None).unwrap();
    db.create_task_with_id(TaskId::new(2), TaskDef::Bar, now, at).unwrap();
    db.create_task_with_id(TaskId::new(3), TaskDef::Baz, now, None).unwrap();
    assert!(db.dispatch_task(TaskId::new(1), WorkerId::new(9), now));

    let pending = db.find_tasks(None, Some(TaskStatus::Pending));
    assert_eq!(2, pending.len());
    assert_eq!(TaskId::new(2), pending[0].id);
    assert_eq!(TaskId::new(3), pending[1].id);

    let one = db.find_tasks(Some(TaskId::new(1)), Some(TaskStatus::Dispatched));
    assert_eq!(1, one.len());
    assert!(db.find_tasks(Some(TaskId::new(1)), Some(TaskStatus::Pending)).is_empty());

    assert_eq!(vec![(TaskId::new(2), at), (TaskId::new(3), None)], db.get_backlog());

    db.delete_task(TaskId::new(2));
    assert_eq!(Err(DbError::NotFound), db.find_task(TaskId::new(2)));
    assert_eq!(vec![(TaskId::new(3), None)], db.get_backlog());
}
