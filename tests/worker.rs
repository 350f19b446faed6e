use fcs::supervisor::notification::SupervisorNotification;
use fcs::task::{TaskDef, TaskId};
use fcs::worker::notification::WorkerNotification;
use fcs::worker::session::{Phase, WorkerAction, WorkerEvent, WorkerSession};
use fcs::worker::{worker_channel, AtomicWorkerStatus, WorkerId, WorkerStatus, SUPERVISOR_CHANNEL};

#[test]
fn worker_channel_names_the_uuid() {
    let id = WorkerId::new(0x67e5_5044_10b1_426f_9247_bb68_0e5f_e0c8);
    assert_eq!("worker:67e55044-10b1-426f-9247-bb680e5fe0c8", worker_channel(id));
    assert_eq!("worker:00000000-0000-0000-0000-0000000004d2", worker_channel(WorkerId::new(1234)));
    assert_eq!("supervisor", SUPERVISOR_CHANNEL);
}

#[test]
fn atomic_status_round_trips() {
    let status = AtomicWorkerStatus::new();
    assert_eq!(WorkerStatus::Idle, status.load());
    status.store(WorkerStatus::Busy);
    assert_eq!(WorkerStatus::Busy, status.load());
    status.store(WorkerStatus::Idle);
    assert_eq!(WorkerStatus::Idle, status.load());
    assert_eq!(WorkerStatus::Idle, AtomicWorkerStatus::default().load());
}

#[test]
fn session_runs_one_task_through() {
    let me = WorkerId::new(1);
    let t = TaskId::new(2);
    let mut s = WorkerSession::new(me);
    assert_eq!(WorkerStatus::Idle, s.status());

    assert_eq!(None, s.step(WorkerEvent::Completed));
    assert_eq!(Phase::Waiting, s.phase);

    let dispatched = WorkerEvent::Notified(WorkerNotification::TaskDispatched { id: t });
    assert_eq!(Some(WorkerAction::Begin { id: t }), s.step(dispatched));
    assert_eq!(WorkerStatus::Busy, s.status());
    assert_eq!(None, s.step(dispatched));

    assert_eq!(
        Some(WorkerAction::Run { id: t, def: TaskDef::Baz }),
        s.step(WorkerEvent::Began(TaskDef::Baz))
    );
    assert_eq!(
        Some(WorkerAction::Complete { id: t, succeeded: false }),
        s.step(WorkerEvent::Ran(false))
    );
    assert_eq!(
        Some(WorkerAction::Announce { notif: SupervisorNotification::WorkerIdle { id: me } }),
        s.step(WorkerEvent::Completed)
    );
    assert_eq!(WorkerStatus::Idle, s.status());
    assert_eq!(Phase::Waiting, s.phase);
}
