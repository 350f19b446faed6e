pub mod notification;
pub mod session;

use std::sync::atomic::{AtomicBool, Ordering};
use vstd::prelude::*;
use vstd::string::StringExecFns;

verus! {

/// Identifier of a worker: the 128 bits of the UUID its operator chose.
#[derive(Clone, Copy, Debug, PartialEq, Eq, Structural, PartialOrd, Ord, Hash)]
pub struct WorkerId(pub u128);

impl WorkerId {
    pub fn new(id: u128) -> (r: WorkerId)
        ensures
            r.0 == id,
    {
        WorkerId(id)
    }

    pub fn get(self) -> (r: u128)
        ensures
            r == self.0,
    {
        self.0
    }
}

impl From<u128> for WorkerId {
    fn from(id: u128) -> (r: WorkerId)
        ensures
            r.0 == id,
    {
        WorkerId(id)
    }
}

impl vstd::std_specs::convert::FromSpecImpl<u128> for WorkerId {
    open spec fn obeys_from_spec() -> bool {
        true
    }

    open spec fn from_spec(id: u128) -> WorkerId {
        WorkerId(id)
    }
}

/// The lower-case hexadecimal digit of `n < 16`.
pub open spec fn hex_digit(n: nat) -> char {
    seq!['0', '1', '2', '3', '4', '5', '6', '7', '8', '9', 'a', 'b', 'c', 'd', 'e', 'f'][n as int]
}

/// The last `n` hexadecimal digits of `v`, most significant first.
pub open spec fn hex_digits(v: nat, n: nat) -> Seq<char>
    decreases n,
{
    if n == 0 {
        Seq::empty()
    } else {
        hex_digits(v / 16, (n - 1) as nat).push(hex_digit(v % 16))
    }
}

/// The lower-case hyphenated text of the UUID with these 128 bits: its 32
/// hexadecimal digits, most significant first, in groups of 8, 4, 4, 4 and
/// 12 joined by hyphens.
pub open spec fn uuid_text(id: u128) -> Seq<char> {
    let d = hex_digits(id as nat, 32);
    d.subrange(0, 8) + seq!['-'] + d.subrange(8, 12) + seq!['-'] + d.subrange(12, 16) + seq!['-']
        + d.subrange(16, 20) + seq!['-'] + d.subrange(20, 32)
}

/// Relies on uuid's `Uuid::from_u128` and the `Display` of its `Hyphenated`
/// form: the UUID's text.
#[verifier::external_body]
fn hyphenated_uuid(id: u128) -> (r: String)
    ensures
        r@ == uuid_text(id),
{
    uuid::Uuid::from_u128(id).hyphenated().to_string()
}

/// Name of the channel on which the supervisor listens.
pub const SUPERVISOR_CHANNEL: &'static str = "supervisor";

/// Name of the channel on which worker `id` listens: `worker:<uuid>`.
pub fn worker_channel(id: WorkerId) -> (r: String)
    ensures
        r@ == "worker:"@ + uuid_text(id.0),
{
    let mut name = String::from_str("worker:");
    let text = hyphenated_uuid(id.0);
    name.append(text.as_str());
    name
}

/// What a worker says of itself in its heartbeats.
#[derive(Clone, Copy, Debug, PartialEq, Eq, Structural, Hash)]
pub enum WorkerStatus {
    Busy,
    Idle,
}

impl WorkerStatus {
    pub fn is_busy(self) -> (r: bool)
        ensures
            r == (self == WorkerStatus::Busy),
    {
        match self {
            WorkerStatus::Busy => true,
            WorkerStatus::Idle => false,
        }
    }

    pub fn from_busy(busy: bool) -> (r: WorkerStatus)
        ensures
            r == (if busy {
                WorkerStatus::Busy
            } else {
                WorkerStatus::Idle
            }),
    {
        if busy {
            WorkerStatus::Busy
        } else {
            WorkerStatus::Idle
        }
    }
}

/// A worker's status shared between its main loop, which writes it, and its
/// watchdog, which reads it. Accesses are sequentially consistent.
#[derive(Debug, Default)]
pub struct AtomicWorkerStatus {
    busy: AtomicBool,
}

impl AtomicWorkerStatus {
    /// Starts idle.
    pub fn new() -> (r: AtomicWorkerStatus) {
        AtomicWorkerStatus { busy: AtomicBool::new(false) }
    }

    pub fn store(&self, status: WorkerStatus) {
        let val = status.is_busy();
        self.busy.store(val, Ordering::SeqCst);
    }

    /// The status last stored by any thread; since another thread may store
    /// at any time, nothing more is known of it.
    pub fn load(&self) -> (r: WorkerStatus)
        ensures
            r == WorkerStatus::Busy || r == WorkerStatus::Idle,
    {
        let busy = self.busy.load(Ordering::SeqCst);
        WorkerStatus::from_busy(busy)
    }
}

/// Signal that a worker's heartbeat loop has stopped.
#[derive(Clone, Copy, Debug, PartialEq, Eq, Structural)]
pub struct WorkerWatchdogDied;

} // verus!
