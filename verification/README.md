# quartz

A job scheduler in the style of the Quartz Scheduler, verified with Verus.

- `src/` is the verified library: triggers (`trigger.rs`), jobs (`job.rs`),
  the job store that orders scheduled jobs by fire time and reschedules
  repeating ones (`job_store.rs`), the clock reading (`clock.rs`), the scheduler
  thread's decisions (how long to wait, whether the first job is due), and the
  pool's workers as a state machine (`threading/`).
- `app/` is the threaded runtime around it: the scheduler and worker threads,
  their locks and condition variables, and conversions from `std::time`.
- `tests/` exercises the library.

Time points are signed nanoseconds from the UNIX epoch in an `i128`
(negative before it); intervals and waits are nanoseconds in a `u128`. Both
stay within what a `std::time::Duration` holds on either side of the epoch.
