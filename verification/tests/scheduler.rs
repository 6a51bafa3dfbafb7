use quartz::job_store::JobStore;
use quartz::threading::thread_pool;
use quartz::threading::thread_pool::{WorkStep, Worker};
use quartz::{Job, Trigger};
use std::sync::atomic::{AtomicUsize, Ordering};
use std::sync::Arc;

const JOB_ID: &str = "job1";
const MILLI: i128 = 1_000_000;

#[test]
fn test_basic_api() {
    let mut store: JobStore<Box<dyn Fn() + Send + Sync>> = JobStore::new();
    let now = quartz::now();
    let run_time = now + 600 * MILLI;
    let job = Job::with_identity(
        JOB_ID,
        "group1",
        Box::new(|| println!("Hello, world from {JOB_ID}!")) as Box<dyn Fn() + Send + Sync>,
    );
    let trigger = Trigger::with_identity("trigger1", "group1").start_at(run_time);
    store.add(job, trigger);
    let wait = store.next_fire_at(now).unwrap();
    assert_eq!(wait, (600 * MILLI) as u128);
    let job = store.next_job().unwrap();
    assert_eq!(job.id(), JOB_ID);
    assert_eq!(job.group(), "group1");
    job.execute();
    assert!(store.next_job().is_none());
}

#[test]
fn available_workers() {
    let w1: Worker<()> = Worker::new();
    let w2: Worker<()> = Worker::new();
    let busy = [w1.busy(), w2.busy()];
    assert_eq!(thread_pool::available_workers(&busy), 2);
}

#[test]
fn worker_api() {
    let mut worker: Worker<()> = Worker::new();
    assert!(!worker.busy());
    assert!(worker.assign(()).is_ok());
    assert!(worker.busy());
    assert!(worker.assign(()).is_err());

    match worker.do_work() {
        WorkStep::Run(task) => task,
        _ => panic!("the assigned task must be handed out"),
    }
    worker.finish();

    assert!(!worker.busy());
    assert!(worker.assign(()).is_ok());
}

#[test]
fn job_execute_runs_target() {
    let count = Arc::new(AtomicUsize::new(0));
    let c = count.clone();
    let job = Job::with_identity("j", "g", move || {
        c.fetch_add(1, Ordering::SeqCst);
    });
    job.execute();
    job.execute();
    assert_eq!(count.load(Ordering::SeqCst), 2);
}

#[test]
fn job_identity_and_description() {
    let a = Job::with_identity("job1", "group1", || ());
    let b = Job::with_identity("job1", "group1", || ());
    let c = Job::with_identity("job2", "group1", || ());
    assert_eq!(a.id(), "job1");
    assert_eq!(a.group(), "group1");
    assert_eq!(a.describe(), "Job group1::job1");
    assert!(a.same_identity(&b));
    let d = Job::with_identity("job1", "group2", || ());
    assert!(!d.same_identity(&Job::with_identity("job1", "group1", || ())));
    let _ = c;
}
