use vstd::prelude::*;

verus! {

/// How often each worker sends a heartbeat to the supervisor (one second).
pub const HEARTBEAT_DURATION: i64 = 1_000_000;

/// A worker that has not been heard from for this long (three seconds) is
/// considered dead by the supervisor. Larger than `HEARTBEAT_DURATION`.
pub const HEARTBEAT_TIMEOUT: i64 = 3_000_000;

/// How often the supervisor runs its maintenance (one second).
pub const MAINTENANCE_INTERVAL: i64 = 1_000_000;

/// An instant in UTC, as microseconds since the Unix epoch.
#[derive(Clone, Copy, Debug, PartialEq, Eq, Structural, PartialOrd, Ord, Hash)]
pub struct Timestamp {
    pub micros: i64,
}

impl Timestamp {
    pub fn from_micros(micros: i64) -> (r: Timestamp)
        ensures
            r.micros == micros,
    {
        Timestamp { micros }
    }

    pub fn micros(self) -> (r: i64)
        ensures
            r == self.micros,
    {
        self.micros
    }

    /// Whether at least `span` microseconds separate `self` from the later
    /// instant `now`, i.e. `self <= now - span`.
    pub fn is_older_than(self, span: i64, now: Timestamp) -> (r: bool)
        ensures
            r == (self.micros + span <= now.micros),
    {
        (self.micros as i128) + (span as i128) <= (now.micros as i128)
    }
}

} // verus!
