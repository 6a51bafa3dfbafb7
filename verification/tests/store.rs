use quartz::clock::{time_point_of, MAX_NANOS};
use quartz::job_store::{JobStore, TriggerWrapper};
use quartz::{Job, Trigger};
use std::sync::Arc;

fn noop() {}

fn job(id: &str) -> Job<fn()> {
    Job::with_identity(id, "g", noop as fn())
}

#[test]
fn trigger_builders_set_one_field_each() {
    let t = Trigger::with_identity("t1", "g1");
    assert_eq!(t.id(), "t1");
    assert_eq!(t.group(), "g1");
    assert_eq!(t.start_time(), None);
    assert_eq!(t.end_time(), None);
    assert_eq!(t.interval(), None);
    assert_eq!(t.repeat_count_value(), None);
    let t = t.start_at(10).end_at(50).every(5).repeat_count(3);
    assert_eq!(t.start_time(), Some(10));
    assert_eq!(t.end_time(), Some(50));
    assert_eq!(t.interval(), Some(5));
    assert_eq!(t.repeat_count_value(), Some(3));
    assert_eq!(t.id(), "t1");
}

#[test]
fn trigger_next_fire_is_start_time_or_now() {
    let t = Trigger::with_identity("t", "g");
    assert_eq!(t.next_fire_at(77), 77);
    let t = t.start_at(5);
    assert_eq!(t.next_fire_at(77), 5);
    assert_eq!(t.next_fire(), 5);
}

#[test]
fn clock_readings_keep_sign_and_size() {
    assert_eq!(time_point_of(Ok(42)), 42);
    assert_eq!(time_point_of(Err(42)), -42);
    assert_eq!(time_point_of(Ok(0)), 0);
    assert_eq!(time_point_of(Ok(MAX_NANOS)), MAX_NANOS as i128);
    assert_eq!(time_point_of(Err(MAX_NANOS)), -(MAX_NANOS as i128));
    assert!(quartz::now() > 1_600_000_000_000_000_000);
}

#[test]
fn repeat_count_fires_exactly_that_many_times() {
    let w = TriggerWrapper::from_parts(job("r"), Trigger::with_identity("t", "g").start_at(100).repeat_count(3), 0);
    let mut current = Some(w);
    let mut fired = 0;
    let mut now = 100;
    while let Some(w) = current {
        let (_job, next) = w.compute_next(now);
        fired += 1;
        current = next;
        now += 10;
    }
    assert_eq!(fired, 3);
}

#[test]
fn rescheduled_entry_keeps_job_and_counts() {
    let w = TriggerWrapper::from_parts(job("r"), Trigger::with_identity("t", "g").every(25).repeat_count(2), 7);
    assert_eq!(w.order_key(), 7);
    assert_eq!(w.repeated_count(), 0);
    assert_eq!(w.last_triggered_at(), None);
    let (handed, next) = w.compute_next(40);
    let next = next.unwrap();
    assert!(Arc::ptr_eq(&handed, next.scheduled_job()));
    assert_eq!(next.repeated_count(), 1);
    assert_eq!(next.last_triggered_at(), Some(40));
    assert_eq!(next.order_key(), 40);
    assert_eq!(next.next_fire_at(1000), 65);
    let (_, after) = next.compute_next(70);
    assert!(after.is_none());
}

#[test]
fn no_repeat_count_fires_once() {
    let w = TriggerWrapper::from_parts(job("o"), Trigger::with_identity("t", "g").every(5), 0);
    let (handed, next) = w.compute_next(3);
    assert_eq!(handed.id(), "o");
    assert!(next.is_none());
}

#[test]
fn end_time_stops_repetition() {
    let t = Trigger::with_identity("t", "g").every(10).end_at(100).repeat_count(50);
    let w = TriggerWrapper::from_parts(job("e"), t, 0);
    let (_, next) = w.compute_next(89);
    let next = next.unwrap();
    let (_, after) = next.compute_next(90);
    assert!(after.is_none());
}

#[test]
fn wrapper_fire_time_without_interval_uses_trigger() {
    let w = TriggerWrapper::from_parts(job("n"), Trigger::with_identity("t", "g"), 3);
    assert_eq!(w.next_fire_at(99), 99);
    let w = TriggerWrapper::from_parts(job("n"), Trigger::with_identity("t", "g").start_at(12), 3);
    assert_eq!(w.next_fire_at(99), 12);
    assert_eq!(w.next_fire(), 12);
}

#[test]
fn earliest_job_is_handed_out_first() {
    let mut store = JobStore::new();
    store.add_at(job("late"), Trigger::with_identity("a", "g").start_at(300), 0);
    store.add_at(job("early"), Trigger::with_identity("b", "g").start_at(100), 0);
    store.add_at(job("middle"), Trigger::with_identity("c", "g").start_at(200), 0);
    assert_eq!(store.len(), 3);
    assert_eq!(store.next_job_at(1000).unwrap().id(), "early");
    assert_eq!(store.next_job_at(1000).unwrap().id(), "middle");
    assert_eq!(store.next_job_at(1000).unwrap().id(), "late");
    assert!(store.next_job_at(1000).is_none());
    assert_eq!(store.len(), 0);
}

#[test]
fn equal_keys_keep_both_jobs_in_insertion_order() {
    let mut store = JobStore::new();
    store.add_at(job("first"), Trigger::with_identity("a", "g").start_at(50), 0);
    store.add_at(job("second"), Trigger::with_identity("b", "g").start_at(50), 0);
    assert_eq!(store.len(), 2);
    assert_eq!(store.next_job_at(60).unwrap().id(), "first");
    assert_eq!(store.next_job_at(60).unwrap().id(), "second");
}

#[test]
fn trigger_without_start_time_is_keyed_by_time_added() {
    let mut store = JobStore::new();
    store.add_at(job("at40"), Trigger::with_identity("a", "g").start_at(40), 0);
    store.add_at(job("now30"), Trigger::with_identity("b", "g"), 30);
    assert_eq!(store.next_job_at(100).unwrap().id(), "now30");
    assert_eq!(store.next_job_at(100).unwrap().id(), "at40");
}

#[test]
fn repeating_job_stays_in_store_until_done() {
    let mut store = JobStore::new();
    store.add_at(job("rep"), Trigger::with_identity("a", "g").start_at(10).every(10).repeat_count(2), 0);
    assert_eq!(store.next_job_at(10).unwrap().id(), "rep");
    assert_eq!(store.len(), 1);
    assert_eq!(store.next_fire_at(12), Some(8));
    assert_eq!(store.next_job_at(20).unwrap().id(), "rep");
    assert_eq!(store.len(), 0);
}

#[test]
fn next_fire_waits_until_first_entry() {
    let mut store: JobStore<fn()> = JobStore::default();
    assert_eq!(store.next_fire_at(5), None);
    assert_eq!(store.next_fire(), None);
    store.add_at(job("x"), Trigger::with_identity("a", "g").start_at(500), 0);
    assert_eq!(store.next_fire_at(200), Some(300));
    assert_eq!(store.next_fire_at(500), Some(0));
    assert_eq!(store.next_fire_at(900), Some(0));
    assert_eq!(store.next_fire(), Some(0));
}

#[test]
fn next_job_on_empty_store_changes_nothing() {
    let mut store: JobStore<fn()> = JobStore::new();
    assert!(store.next_job().is_none());
    assert_eq!(store.len(), 0);
}

#[test]
fn add_reads_clock_only_for_key_without_start() {
    let mut store = JobStore::new();
    store.add(job("s"), Trigger::with_identity("a", "g").start_at(3));
    assert_eq!(store.len(), 1);
    assert_eq!(store.next_job().unwrap().id(), "s");
}

#[test]
fn repeat_count_zero_fires_once() {
    let w = TriggerWrapper::from_parts(job("z"), Trigger::with_identity("t", "g").repeat_count(0), 0);
    let (handed, next) = w.compute_next(5);
    assert_eq!(handed.id(), "z");
    assert!(next.is_none());
    let mut store = JobStore::new();
    store.add_at(job("z"), Trigger::with_identity("t", "g").start_at(1).repeat_count(0), 0);
    assert_eq!(store.next_job_at(2).unwrap().id(), "z");
    assert_eq!(store.len(), 0);
}

#[test]
fn repeat_count_zero_past_end_time_fires_once() {
    let t = Trigger::with_identity("t", "g").end_at(3).repeat_count(0);
    let w = TriggerWrapper::from_parts(job("e0"), t, 0);
    let (_, next) = w.compute_next(10);
    assert!(next.is_none());
}

#[test]
fn due_step_waits_for_fire_time() {
    let mut store = JobStore::new();
    store.add_at(job("later"), Trigger::with_identity("a", "g").start_at(1_000_000), 0);
    assert!(store.next_due_job_at(0).is_none());
    assert_eq!(store.len(), 1);
    assert!(store.next_due_job_at(999_999).is_none());
    assert_eq!(store.next_due_job_at(1_000_000).unwrap().id(), "later");
    assert_eq!(store.len(), 0);
    assert!(store.next_due_job_at(2_000_000).is_none());
}

#[test]
fn due_step_waits_for_rescheduled_interval() {
    let mut store = JobStore::new();
    store.add_at(job("rep"), Trigger::with_identity("a", "g").start_at(10).every(100).repeat_count(2), 0);
    assert_eq!(store.next_due_job_at(10).unwrap().id(), "rep");
    assert!(store.next_due_job_at(50).is_none());
    assert_eq!(store.next_due_job_at(110).unwrap().id(), "rep");
    assert!(store.next_due_job().is_none());
}

#[test]
fn store_hands_out_repeating_job_n_times() {
    let mut store = JobStore::new();
    store.add_at(job("n"), Trigger::with_identity("a", "g").start_at(0).repeat_count(4), 0);
    for k in 0..4i128 {
        assert_eq!(store.next_job_at(k * 7).unwrap().id(), "n");
    }
    assert!(store.next_job_at(100).is_none());
}

#[test]
fn times_before_epoch_and_far_ahead_are_ordered() {
    let mut store = JobStore::new();
    let far = 20_000_000_000_000_000_000_000_000i128;
    store.add_at(job("far"), Trigger::with_identity("a", "g").start_at(far), 0);
    store.add_at(job("before"), Trigger::with_identity("b", "g").start_at(-5_000), 0);
    store.add_at(job("epoch"), Trigger::with_identity("c", "g").start_at(0), 0);
    assert_eq!(store.next_fire_at(-10_000), Some(5_000));
    assert_eq!(store.next_job_at(far).unwrap().id(), "before");
    assert_eq!(store.next_job_at(far).unwrap().id(), "epoch");
    assert_eq!(store.next_fire_at(0), Some(far as u128));
    assert_eq!(store.next_job_at(far).unwrap().id(), "far");
}

#[test]
fn end_time_before_repeat_count_limits_firings() {
    let t = Trigger::with_identity("t", "g").every(10).end_at(25).repeat_count(10);
    let mut current = Some(TriggerWrapper::from_parts(job("lim"), t, 0));
    let mut fired = 0;
    let mut now = 0;
    while let Some(w) = current {
        let (_job, next) = w.compute_next(now);
        fired += 1;
        current = next;
        now += 10;
    }
    assert_eq!(fired, 3);
}
