//! Coordination core of a database-backed task scheduler: the task and
//! worker tables' state machine, the supervisor's pending-task queue and
//! worker roster, and the decisions of the supervisor and worker loops.

pub mod database;
mod lemmas;
pub mod supervisor;
pub mod task;
pub mod time;
pub mod worker;
