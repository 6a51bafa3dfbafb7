//! A job scheduler: jobs are kept in a store ordered by the time at which their
//! trigger fires, handed out earliest first, and rescheduled while their trigger
//! asks for repetitions. A worker is a state machine whose steps the threaded
//! runtime performs; the scheduler thread's decisions (how long to wait, and
//! whether the first job is due) are verified functions that it calls.

pub mod clock;
pub mod job;
pub mod job_store;
pub mod threading;
pub mod trigger;

pub use clock::now;
pub use job::Job;
pub use job_store::{JobStore, TriggerWrapper};
pub use trigger::Trigger;
