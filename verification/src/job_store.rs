//! The job store: scheduled jobs, each with the trigger that fires it, kept in
//! the order of their fire keys and handed out earliest first.

use vstd::prelude::*;
use std::sync::Arc;
use crate::clock::{is_time_point, now};
use crate::job::Job;
use crate::trigger::{Trigger, TriggerView, fire_time, in_range, interval_or_zero};

verus! {

/// Calls `Arc::clone`. Its documentation says that the clone is another
/// pointer to the same allocation, so it stands for the same value.
#[verifier::external_body]
fn share<T>(a: &Arc<T>) -> (r: Arc<T>)
    ensures
        r == *a,
{
    Arc::clone(a)
}

/// A scheduled job together with its trigger, how many times it has been
/// rescheduled, when it last fired and the key that orders it in the store.
pub struct TriggerWrapper<F> {
    trigger: Trigger,
    job: Arc<Job<F>>,
    repeated: u32,
    last_triggered: Option<i128>,
    key: i128,
}

/// The times an entry holds are time points, and so are its trigger's.
pub open spec fn wrapper_in_range<F>(w: TriggerWrapper<F>) -> bool {
    &&& in_range(w.trigger_view())
    &&& is_time_point(w.key())
    &&& (w.last_triggered() matches Some(l) ==> is_time_point(l))
}

impl<F> TriggerWrapper<F> {
    /// Every entry's times are in range.
    #[verifier::type_invariant]
    spec fn entry_in_range(self) -> bool {
        wrapper_in_range(self)
    }

    /// The trigger that fires the job.
    pub closed spec fn trigger_view(&self) -> TriggerView {
        self.trigger@
    }

    /// The job.
    pub closed spec fn job(&self) -> Arc<Job<F>> {
        self.job
    }

    /// How many times the job has been rescheduled.
    pub closed spec fn repeated(&self) -> u32 {
        self.repeated
    }

    /// When the job last fired, if it has been rescheduled.
    pub closed spec fn last_triggered(&self) -> Option<i128> {
        self.last_triggered
    }

    /// The time by which the store orders the entry: the trigger's start time,
    /// or the time at which the entry was stored when the trigger has none.
    pub closed spec fn key(&self) -> i128 {
        self.key
    }

    /// The entry that replaces `self` when its job fires at `now` and its
    /// trigger asks for another run.
    pub closed spec fn rescheduled(self, now: i128) -> TriggerWrapper<F> {
        TriggerWrapper {
            trigger: self.trigger,
            job: self.job,
            repeated: (self.repeated + 1) as u32,
            last_triggered: Some(now),
            key: fire_time(self.trigger@, now),
        }
    }

    /// What `rescheduled` keeps and changes.
    pub proof fn lemma_rescheduled(self, now: i128)
        requires
            self.repeated() < u32::MAX,
        ensures
            self.rescheduled(now).trigger_view() == self.trigger_view(),
            self.rescheduled(now).job() == self.job(),
            self.rescheduled(now).repeated() == self.repeated() + 1,
            self.rescheduled(now).last_triggered() == Some(now),
            self.rescheduled(now).key() == fire_time(self.trigger_view(), now),
    {
    }

    /// A fresh entry for `job`, fired by `trigger`, stored at time `now`.
    pub fn from_parts(job: Job<F>, trigger: Trigger, now: i128) -> (w: TriggerWrapper<F>)
        requires
            is_time_point(now),
        ensures
            w.job() == job,
            w.trigger_view() == trigger@,
            w.repeated() == 0,
            w.last_triggered() == None::<i128>,
            w.key() == fire_time(trigger@, now),
    {
        let key = trigger.next_fire_at(now);
        TriggerWrapper { trigger, job: Arc::new(job), repeated: 0, last_triggered: None, key }
    }

    /// The entry's trigger.
    pub fn trigger(&self) -> (r: &Trigger)
        ensures
            r@ == self.trigger_view(),
    {
        &self.trigger
    }

    /// The entry's job.
    pub fn scheduled_job(&self) -> (r: &Arc<Job<F>>)
        ensures
            *r == self.job(),
    {
        &self.job
    }

    /// How many times the entry has been rescheduled.
    pub fn repeated_count(&self) -> (r: u32)
        ensures
            r == self.repeated(),
    {
        self.repeated
    }

    /// When the entry's job last fired, if it was rescheduled.
    pub fn last_triggered_at(&self) -> (r: Option<i128>)
        ensures
            r == self.last_triggered(),
    {
        self.last_triggered
    }

    /// The entry's ordering key.
    pub fn order_key(&self) -> (r: i128)
        ensures
            r == self.key(),
    {
        self.key
    }

    /// Fires the job at time `now`: hands the job back, together with the entry
    /// that replaces this one when the trigger asks for another run. A repeat
    /// count of zero is read as "no further run": the job fires once.
    pub fn compute_next(self, now: i128) -> (r: (Arc<Job<F>>, Option<TriggerWrapper<F>>))
        requires
            is_time_point(now),
        ensures
            r.0 == self.job(),
            r.1 == (if reschedules(self, now) {
                Some(self.rescheduled(now))
            } else {
                None::<TriggerWrapper<F>>
            }),
    {
        proof {
            use_type_invariant(&self);
        }
        let TriggerWrapper { trigger, job, repeated, last_triggered: _, key: _ } = self;
        if let Some(end) = trigger.end_time() {
            let interval: u128 = match trigger.interval() {
                Some(i) => i,
                None => 0,
            };
            if end <= now + interval as i128 {
                return (job, None);
            }
        }
        if let Some(repeat_count) = trigger.repeat_count_value() {
            if (repeated as u64) + 1 < repeat_count as u64 {
                let key = trigger.next_fire_at(now);
                let shared = share(&job);
                let next = TriggerWrapper {
                    trigger,
                    job: shared,
                    repeated: repeated + 1,
                    last_triggered: Some(now),
                    key,
                };
                return (job, Some(next));
            }
        }
        (job, None)
    }

    /// When the entry fires next, the current time being `now`: one interval
    /// after it last fired, or else when its trigger fires.
    pub fn next_fire_at(&self, now: i128) -> (r: i128)
        ensures
            r == wrapper_fire_time(*self, now),
            wrapper_in_range(*self),
    {
        proof {
            use_type_invariant(self);
        }
        if let Some(last) = self.last_triggered {
            if let Some(interval) = self.trigger.interval() {
                return last + interval as i128;
            }
        }
        self.trigger.next_fire_at(now)
    }

    /// When the entry fires next, reading the system clock where the trigger
    /// has no start time.
    pub fn next_fire(&self) -> (r: i128)
        ensures
            self.trigger_view().start_time is Some ==> r == wrapper_fire_time(*self, self.trigger_view().start_time->0),
            exists|t: i128| is_time_point(t) && r == #[trigger] wrapper_fire_time(*self, t),
    {
        match self.trigger.start_time() {
            Some(s) => self.next_fire_at(s),
            None => self.next_fire_at(now()),
        }
    }
}

/// Whether firing `w` at time `now` schedules it again: its trigger has not
/// reached its end time within one interval of `now`, and it still has runs
/// left of its repeat count.
pub open spec fn reschedules<F>(w: TriggerWrapper<F>, now: i128) -> bool {
    let t = w.trigger_view();
    &&& !(t.end_time is Some && t.end_time->0 <= now + interval_or_zero(t))
    &&& t.repeat_count is Some
    &&& w.repeated() + 1 < t.repeat_count->0
}

/// The end time of `t`, if it has one, lies more than one interval after
/// `now`, so firing at `now` does not stop it.
pub open spec fn end_not_reached(t: TriggerView, now: i128) -> bool {
    match t.end_time {
        Some(e) => e > now + interval_or_zero(t),
        None => true,
    }
}

/// When `w` fires next, the current time being `now`.
pub open spec fn wrapper_fire_time<F>(w: TriggerWrapper<F>, now: i128) -> int {
    match (w.last_triggered(), w.trigger_view().interval) {
        (Some(last), Some(interval)) => last + interval,
        _ => fire_time(w.trigger_view(), now) as int,
    }
}


/// Entries are in non-decreasing order of their keys.
pub open spec fn sorted_by_key<F>(s: Seq<TriggerWrapper<F>>) -> bool {
    forall|i: int, j: int| 0 <= i <= j < s.len() ==> #[trigger] s[i].key() <= #[trigger] s[j].key()
}

/// What an entry of a store can look like: a fresh one, never fired, or one
/// that has been rescheduled `repeated` times, fewer than its repeat count,
/// and remembers when it last fired.
pub open spec fn entry_reachable<F>(e: TriggerWrapper<F>) -> bool {
    ||| e.repeated() == 0 && e.last_triggered() is None
    ||| e.last_triggered() is Some && e.trigger_view().repeat_count is Some && 1 <= e.repeated()
        < e.trigger_view().repeat_count->0
}

/// Every entry is one that scheduling and firing can produce.
pub open spec fn valid_entries<F>(s: Seq<TriggerWrapper<F>>) -> bool {
    forall|i: int| 0 <= i < s.len() ==> entry_reachable(#[trigger] s[i])
}

/// `after` is `before` with `w` inserted after every entry whose key is at most
/// `w`'s and before every entry whose key is greater.
pub open spec fn is_sorted_insert<F>(
    before: Seq<TriggerWrapper<F>>,
    w: TriggerWrapper<F>,
    after: Seq<TriggerWrapper<F>>,
) -> bool {
    exists|p: int|
        #![trigger before.insert(p, w)]
        0 <= p <= before.len() && after == before.insert(p, w) && (forall|i: int|
            0 <= i < p ==> #[trigger] before[i].key() <= w.key()) && (forall|i: int|
            p <= i < before.len() ==> w.key() < #[trigger] before[i].key())
}

/// `w` is the entry that scheduling `job` with a trigger described by `t` at
/// time `now` creates.
pub open spec fn is_fresh_entry<F>(w: TriggerWrapper<F>, job: Job<F>, t: TriggerView, now: i128) -> bool {
    &&& w.job() == job
    &&& w.trigger_view() == t
    &&& w.repeated() == 0
    &&& w.last_triggered() == None::<i128>
    &&& w.key() == fire_time(t, now)
}

/// What handing out the first job of `before` at time `now` does: `r` is that
/// job, which belongs to an entry of least key, and `after` is `before` without
/// that entry, with its replacement stored in order when its trigger asks for
/// another run. On an empty store nothing is handed out and nothing changes.
pub open spec fn next_job_outcome<F>(
    before: Seq<TriggerWrapper<F>>,
    after: Seq<TriggerWrapper<F>>,
    r: Option<Arc<Job<F>>>,
    now: i128,
) -> bool {
    if before.len() == 0 {
        r is None && after == before
    } else {
        let first = before[0];
        &&& r == Some(first.job())
        &&& forall|i: int| 0 <= i < before.len() ==> first.key() <= #[trigger] before[i].key()
        &&& if reschedules(first, now) {
            is_sorted_insert(before.drop_first(), first.rescheduled(now), after)
        } else {
            after == before.drop_first()
        }
    }
}

/// What handing out the first job of `before` only when it is due at `now`
/// does: nothing, when the store is empty or its first entry fires after
/// `now`; otherwise what [`next_job_outcome`] says.
pub open spec fn due_job_outcome<F>(
    before: Seq<TriggerWrapper<F>>,
    after: Seq<TriggerWrapper<F>>,
    r: Option<Arc<Job<F>>>,
    now: i128,
) -> bool {
    if before.len() > 0 && wrapper_fire_time(before[0], now) <= now {
        next_job_outcome(before, after, r, now)
    } else {
        r is None && after == before
    }
}

/// How long from `now` until `fire`: zero when `fire` is not later than `now`.
pub open spec fn wait_until(fire: int, now: i128) -> int {
    if fire > now { fire - now } else { 0 }
}

/// The jobs that are scheduled, in the order in which they are handed out.
pub struct JobStore<F> {
    entries: Vec<TriggerWrapper<F>>,
}

impl<F> View for JobStore<F> {
    type V = Seq<TriggerWrapper<F>>;

    closed spec fn view(&self) -> Seq<TriggerWrapper<F>> {
        self.entries@
    }
}

impl<F> Default for JobStore<F> {
    /// An empty store.
    fn default() -> (s: JobStore<F>)
        ensures
            s.wf(),
            s@ == Seq::<TriggerWrapper<F>>::empty(),
    {
        JobStore::new()
    }
}

impl<F> JobStore<F> {
    /// The store's invariant: sorted by key, and every entry either fresh or
    /// rescheduled fewer times than its repeat count.
    pub open spec fn wf(&self) -> bool {
        sorted_by_key(self@) && valid_entries(self@)
    }

    /// An empty store.
    pub fn new() -> (s: JobStore<F>)
        ensures
            s.wf(),
            s@ == Seq::<TriggerWrapper<F>>::empty(),
    {
        JobStore { entries: Vec::new() }
    }

    /// The number of scheduled entries.
    pub fn len(&self) -> (n: usize)
        ensures
            n == self@.len(),
    {
        self.entries.len()
    }

    /// Schedules `job`, fired by `trigger`, the current time being `now`: the
    /// new entry goes after every entry whose key is at most its own.
    pub fn add_at(&mut self, job: Job<F>, trigger: Trigger, now: i128)
        requires
            old(self).wf(),
            is_time_point(now),
        ensures
            final(self).wf(),
            exists|w: TriggerWrapper<F>|
                #[trigger] is_sorted_insert(old(self)@, w, final(self)@) && is_fresh_entry(
                    w,
                    job,
                    trigger@,
                    now,
                ),
    {
        let w = TriggerWrapper::from_parts(job, trigger, now);
        self.insert_entry(w);
    }

    /// Schedules `job`, fired by `trigger`, reading the system clock for the
    /// ordering key of a trigger that has no start time.
    pub fn add(&mut self, job: Job<F>, trigger: Trigger)
        requires
            old(self).wf(),
        ensures
            final(self).wf(),
            exists|w: TriggerWrapper<F>, t: i128|
                #![trigger is_sorted_insert(old(self)@, w, final(self)@), is_fresh_entry(w, job, trigger@, t)]
                is_time_point(t) && is_sorted_insert(old(self)@, w, final(self)@) && is_fresh_entry(
                    w,
                    job,
                    trigger@,
                    t,
                ),
            trigger@.start_time is Some ==> exists|w: TriggerWrapper<F>|
                #[trigger] is_sorted_insert(old(self)@, w, final(self)@) && is_fresh_entry(
                    w,
                    job,
                    trigger@,
                    trigger@.start_time->0,
                ),
    {
        let t = match trigger.start_time() {
            Some(s) => s,
            None => now(),
        };
        self.add_at(job, trigger, t);
    }

    /// Hands out the job of the first entry, the current time being `now`: the
    /// entry leaves the store, and the entry that replaces it, if its trigger
    /// asks for another run, is stored in its place in the order.
    pub fn next_job_at(&mut self, now: i128) -> (r: Option<Arc<Job<F>>>)
        requires
            old(self).wf(),
            is_time_point(now),
        ensures
            final(self).wf(),
            next_job_outcome(old(self)@, final(self)@, r, now),
    {
        if self.entries.len() == 0 {
            return None;
        }
        let ghost before = self@;
        let first = self.entries.remove(0);
        proof {
            assert(self@ == before.drop_first());
            assert forall|i: int| 0 <= i < before.len() implies before[0].key() <= #[trigger] before[i].key() by {}
            assert(entry_reachable(before[0]));
            assert(sorted_by_key(self@)) by {
                assert forall|i: int, j: int| 0 <= i <= j < self@.len() implies #[trigger] self@[i].key() <= #[trigger] self@[j].key() by {
                    assert(self@[i] == before[i + 1] && self@[j] == before[j + 1]);
                }
            }
            assert(valid_entries(self@)) by {
                assert forall|i: int| 0 <= i < self@.len() implies entry_reachable(#[trigger] self@[i]) by {
                    assert(self@[i] == before[i + 1]);
                }
            }
        }
        let (job, next) = first.compute_next(now);
        match next {
            Some(n) => {
                proof {
                    first.lemma_rescheduled(now);
                }
                self.insert_entry(n);
            },
            None => {},
        }
        Some(job)
    }

    /// Hands out the job of the first entry, reading the system clock for the
    /// time at which it fires.
    pub fn next_job(&mut self) -> (r: Option<Arc<Job<F>>>)
        requires
            old(self).wf(),
        ensures
            final(self).wf(),
            exists|t: i128| is_time_point(t) && #[trigger] next_job_outcome(old(self)@, final(self)@, r, t),
    {
        let t = now();
        self.next_job_at(t)
    }

    /// Hands out the job of the first entry only when it is due at time `now`:
    /// when the store is empty, or the first entry fires later than `now`,
    /// nothing is handed out and the store is unchanged; otherwise as
    /// [`JobStore::next_job_at`].
    pub fn next_due_job_at(&mut self, now: i128) -> (r: Option<Arc<Job<F>>>)
        requires
            old(self).wf(),
            is_time_point(now),
        ensures
            final(self).wf(),
            due_job_outcome(old(self)@, final(self)@, r, now),
    {
        if self.entries.len() == 0 {
            return None;
        }
        let fire = self.entries[0].next_fire_at(now);
        if fire > now {
            return None;
        }
        self.next_job_at(now)
    }

    /// Hands out the job of the first entry only when it is due, reading the
    /// system clock for the current time.
    pub fn next_due_job(&mut self) -> (r: Option<Arc<Job<F>>>)
        requires
            old(self).wf(),
        ensures
            final(self).wf(),
            exists|t: i128| is_time_point(t) && #[trigger] due_job_outcome(old(self)@, final(self)@, r, t),
    {
        let t = now();
        self.next_due_job_at(t)
    }

    /// How long until the first entry fires, the current time being `now`:
    /// `None` when nothing is scheduled, zero when its fire time has passed.
    pub fn next_fire_at(&self, now: i128) -> (r: Option<u128>)
        requires
            is_time_point(now),
        ensures
            self@.len() == 0 ==> r is None,
            self@.len() > 0 ==> r == Some(wait_until(wrapper_fire_time(self@[0], now), now) as u128),
    {
        if self.entries.len() == 0 {
            return None;
        }
        let fire = self.entries[0].next_fire_at(now);
        if fire > now {
            Some((fire - now) as u128)
        } else {
            Some(0)
        }
    }

    /// How long until the first entry fires, reading the system clock for the
    /// current time. `None` exactly when nothing is scheduled.
    pub fn next_fire(&self) -> (r: Option<u128>)
        ensures
            r is None <==> self@.len() == 0,
            self@.len() > 0 ==> exists|t: i128| is_time_point(t) && r == Some(#[trigger] wait_until(wrapper_fire_time(self@[0], t), t) as u128),
    {
        let t = now();
        self.next_fire_at(t)
    }

    /// Stores `w` after every entry whose key is at most its own.
    fn insert_entry(&mut self, w: TriggerWrapper<F>)
        requires
            old(self).wf(),
            entry_reachable(w),
        ensures
            final(self).wf(),
            is_sorted_insert(old(self)@, w, final(self)@),
    {
        let ghost before = self@;
        let mut p: usize = 0;
        while p < self.entries.len() && self.entries[p].key <= w.key
            invariant
                self@ == before,
                sorted_by_key(before),
                p <= before.len(),
                forall|i: int| 0 <= i < p ==> #[trigger] before[i].key() <= w.key(),
            decreases before.len() - p,
        {
            p = p + 1;
        }
        proof {
            assert forall|i: int| p <= i < before.len() implies w.key() < #[trigger] before[i].key() by {
                assert(before[p as int].key() <= before[i].key());
            }
        }
        self.entries.insert(p, w);
        proof {
            assert(is_sorted_insert(before, w, self@));
            lemma_sorted_insert_keeps_invariant(before, w, self@);
        }
    }
}


/// Storing an entry that scheduling or firing can produce keeps the store
/// ordered by key and made of such entries.
pub proof fn lemma_sorted_insert_keeps_invariant<F>(
    before: Seq<TriggerWrapper<F>>,
    w: TriggerWrapper<F>,
    after: Seq<TriggerWrapper<F>>,
)
    requires
        sorted_by_key(before),
        valid_entries(before),
        entry_reachable(w),
        is_sorted_insert(before, w, after),
    ensures
        sorted_by_key(after),
        valid_entries(after),
{
    let p = choose|p: int|
        #![trigger before.insert(p, w)]
        0 <= p <= before.len() && after == before.insert(p, w) && (forall|i: int|
            0 <= i < p ==> #[trigger] before[i].key() <= w.key()) && (forall|i: int|
            p <= i < before.len() ==> w.key() < #[trigger] before[i].key());
    assert forall|i: int, j: int| 0 <= i <= j < after.len() implies #[trigger] after[i].key()
        <= #[trigger] after[j].key() by {
        if j < p {
            assert(after[i] == before[i] && after[j] == before[j]);
        } else if j == p {
            if i < p {
                assert(after[i] == before[i]);
            }
        } else if i < p {
            assert(after[i] == before[i] && after[j] == before[j - 1]);
        } else if i == p {
            assert(after[j] == before[j - 1]);
        } else {
            assert(after[i] == before[i - 1] && after[j] == before[j - 1]);
        }
    }
    assert forall|i: int| 0 <= i < after.len() implies entry_reachable(#[trigger] after[i]) by {
        if i < p {
            assert(after[i] == before[i]);
        } else if i > p {
            assert(after[i] == before[i - 1]);
        }
    }
}

/// Scheduling a job loses nothing: the store afterwards holds exactly the
/// entries it held before and the new one.
pub proof fn lemma_add_loses_nothing<F>(
    before: Seq<TriggerWrapper<F>>,
    w: TriggerWrapper<F>,
    after: Seq<TriggerWrapper<F>>,
)
    requires
        is_sorted_insert(before, w, after),
    ensures
        after.to_multiset() == before.to_multiset().insert(w),
        after.len() == before.len() + 1,
{
    let p = choose|p: int|
        #![trigger before.insert(p, w)]
        0 <= p <= before.len() && after == before.insert(p, w) && (forall|i: int|
            0 <= i < p ==> #[trigger] before[i].key() <= w.key()) && (forall|i: int|
            p <= i < before.len() ==> w.key() < #[trigger] before[i].key());
    vstd::seq_lib::to_multiset_insert(before, p, w);
}

/// Handing out a job removes exactly the entry it came from, and adds back
/// exactly its replacement when the trigger asks for another run.
pub proof fn lemma_next_job_accounts_for_entries<F>(
    before: Seq<TriggerWrapper<F>>,
    after: Seq<TriggerWrapper<F>>,
    r: Option<Arc<Job<F>>>,
    now: i128,
)
    requires
        next_job_outcome(before, after, r, now),
        before.len() > 0,
    ensures
        reschedules(before[0], now) ==> after.to_multiset() == before.to_multiset().remove(
            before[0],
        ).insert(before[0].rescheduled(now)),
        !reschedules(before[0], now) ==> after.to_multiset() == before.to_multiset().remove(
            before[0],
        ),
        after.len() == (if reschedules(before[0], now) { before.len() as int } else { before.len() - 1 }),
{
    vstd::seq_lib::to_multiset_remove(before, 0);
    assert(before.remove(0) == before.drop_first());
    if reschedules(before[0], now) {
        lemma_add_loses_nothing(before.drop_first(), before[0].rescheduled(now), after);
    }
}

/// What is scheduled earliest is handed out first: when a job is scheduled
/// with a key earlier than every entry already stored, the next job handed out
/// is that one.
pub proof fn lemma_earliest_is_handed_out_first<F>(
    before: Seq<TriggerWrapper<F>>,
    w: TriggerWrapper<F>,
    mid: Seq<TriggerWrapper<F>>,
    after: Seq<TriggerWrapper<F>>,
    r: Option<Arc<Job<F>>>,
    now: i128,
)
    requires
        is_sorted_insert(before, w, mid),
        forall|i: int| 0 <= i < before.len() ==> w.key() < #[trigger] before[i].key(),
        next_job_outcome(mid, after, r, now),
    ensures
        r == Some(w.job()),
{
    let p = choose|p: int|
        #![trigger before.insert(p, w)]
        0 <= p <= before.len() && mid == before.insert(p, w) && (forall|i: int|
            0 <= i < p ==> #[trigger] before[i].key() <= w.key()) && (forall|i: int|
            p <= i < before.len() ==> w.key() < #[trigger] before[i].key());
    if p > 0 {
        assert(before[0].key() <= w.key());
        assert(w.key() < before[0].key());
    }
    assert(mid[0] == w);
}

/// A trigger without a repeat count fires its job once: the entry is never
/// rescheduled.
pub proof fn lemma_no_repeat_count_fires_once<F>(w: TriggerWrapper<F>, now: i128)
    requires
        w.trigger_view().repeat_count is None,
    ensures
        !reschedules(w, now),
{
}

/// A trigger stops at its end time: an entry whose end time falls within one
/// interval of the current time is not rescheduled.
pub proof fn lemma_end_time_stops_repetition<F>(w: TriggerWrapper<F>, now: i128)
    requires
        w.trigger_view().end_time is Some,
        w.trigger_view().end_time->0 <= now + interval_or_zero(w.trigger_view()),
    ensures
        !reschedules(w, now),
{
}

/// A rescheduled entry fires one interval after the time at which it last
/// fired, whatever the clock reads then.
pub proof fn lemma_rescheduled_fires_one_interval_later<F>(w: TriggerWrapper<F>, fired: i128, later: i128)
    requires
        reschedules(w, fired),
        w.trigger_view().interval is Some,
    ensures
        wrapper_fire_time(w.rescheduled(fired), later) == fired + w.trigger_view().interval->0,
{
    w.lemma_rescheduled(fired);
}

/// How many times an entry's job is handed out when it is fired at the
/// successive times `nows` and rescheduled as its trigger asks.
pub open spec fn fire_count<F>(w: TriggerWrapper<F>, nows: Seq<i128>) -> nat
    decreases nows.len(),
{
    if nows.len() == 0 {
        0
    } else if reschedules(w, nows[0]) {
        1 + fire_count(w.rescheduled(nows[0]), nows.drop_first())
    } else {
        1
    }
}

/// A trigger with a repeat count of `n` fires its job exactly `n` times when
/// its end time is not reached: if at each firing the end time, when there is
/// one, lies more than one interval after the time of firing, an entry that
/// has been rescheduled `repeated` times fires exactly `n - repeated` more
/// times, and then leaves the store.
pub proof fn lemma_repeat_count_fires_exactly<F>(w: TriggerWrapper<F>, nows: Seq<i128>)
    requires
        forall|k: int| 0 <= k < nows.len() ==> end_not_reached(w.trigger_view(), #[trigger] nows[k]),
        w.trigger_view().repeat_count is Some,
        w.repeated() < w.trigger_view().repeat_count->0,
        nows.len() >= w.trigger_view().repeat_count->0 - w.repeated(),
    ensures
        fire_count(w, nows) == w.trigger_view().repeat_count->0 - w.repeated(),
    decreases nows.len(),
{
    if reschedules(w, nows[0]) {
        w.lemma_rescheduled(nows[0]);
        assert forall|k: int| 0 <= k < nows.drop_first().len() implies end_not_reached(
            w.rescheduled(nows[0]).trigger_view(),
            #[trigger] nows.drop_first()[k],
        ) by {
            assert(nows.drop_first()[k] == nows[k + 1]);
        }
        lemma_repeat_count_fires_exactly(w.rescheduled(nows[0]), nows.drop_first());
    } else {
        assert(end_not_reached(w.trigger_view(), nows[0]));
    }
}


/// A job is never handed out before it is due: when the due step hands out a
/// job, the entry it came from fires no later than the current time.
pub proof fn lemma_due_job_not_early<F>(
    before: Seq<TriggerWrapper<F>>,
    after: Seq<TriggerWrapper<F>>,
    r: Option<Arc<Job<F>>>,
    now: i128,
)
    requires
        due_job_outcome(before, after, r, now),
        r is Some,
    ensures
        before.len() > 0,
        wrapper_fire_time(before[0], now) <= now,
        r == Some(before[0].job()),
{
}

/// A trigger with a repeat count of `n` fires its job at most `n` times,
/// whether or not it has an end time: an entry that has been rescheduled
/// `repeated` times fires at most `n - repeated` more times.
pub proof fn lemma_repeat_count_fires_at_most<F>(w: TriggerWrapper<F>, nows: Seq<i128>)
    requires
        w.trigger_view().repeat_count is Some,
        w.repeated() < w.trigger_view().repeat_count->0,
    ensures
        fire_count(w, nows) <= w.trigger_view().repeat_count->0 - w.repeated(),
    decreases nows.len(),
{
    if nows.len() > 0 && reschedules(w, nows[0]) {
        w.lemma_rescheduled(nows[0]);
        lemma_repeat_count_fires_at_most(w.rescheduled(nows[0]), nows.drop_first());
    }
}

/// The state of a store holding the entry `w` after `k` of its runs have been
/// handed out: the rescheduled entry while runs are left, nothing after.
pub open spec fn store_after_runs<F>(w: TriggerWrapper<F>, s: Seq<TriggerWrapper<F>>, k: int) -> bool {
    if k < w.trigger_view().repeat_count->0 {
        &&& s.len() == 1
        &&& s[0].job() == w.job()
        &&& s[0].trigger_view() == w.trigger_view()
        &&& s[0].repeated() == k
    } else {
        s.len() == 0
    }
}

proof fn lemma_store_runs_step<F>(
    w: TriggerWrapper<F>,
    before: Seq<TriggerWrapper<F>>,
    after: Seq<TriggerWrapper<F>>,
    r: Option<Arc<Job<F>>>,
    now: i128,
    k: int,
)
    requires
        0 <= k,
        end_not_reached(w.trigger_view(), now),
        w.trigger_view().repeat_count is Some,
        store_after_runs(w, before, k),
        next_job_outcome(before, after, r, now),
    ensures
        store_after_runs(w, after, k + 1),
        k < w.trigger_view().repeat_count->0 ==> r == Some(w.job()),
        k >= w.trigger_view().repeat_count->0 ==> r is None,
{
    let n = w.trigger_view().repeat_count->0;
    if k < n {
        let e = before[0];
        assert(before.drop_first().len() == 0);
        if reschedules(e, now) {
            e.lemma_rescheduled(now);
            let x = e.rescheduled(now);
            let p = choose|p: int|
                #![trigger before.drop_first().insert(p, x)]
                0 <= p <= before.drop_first().len() && after == before.drop_first().insert(p, x) && (forall|i: int|
                    0 <= i < p ==> #[trigger] before.drop_first()[i].key() <= x.key()) && (forall|i: int|
                    p <= i < before.drop_first().len() ==> x.key() < #[trigger] before.drop_first()[i].key());
            assert(p == 0);
            assert(after[0] == x);
        }
    }
}

/// A job scheduled alone with a repeat count of `n >= 1`, whose end time (if
/// any) lies more than one interval after each of the times below, is handed
/// out by the first `n` calls that hand out the store's next job, whatever the
/// times of those calls, and by none after them: `stores[k]` is the store
/// before call `k`, `results[k]` what that call returned and `nows[k]` its time.
pub proof fn lemma_store_hands_out_repeating_job_n_times<F>(
    w: TriggerWrapper<F>,
    stores: Seq<Seq<TriggerWrapper<F>>>,
    results: Seq<Option<Arc<Job<F>>>>,
    nows: Seq<i128>,
)
    requires
        forall|k: int| 0 <= k < nows.len() ==> end_not_reached(w.trigger_view(), #[trigger] nows[k]),
        w.trigger_view().repeat_count is Some,
        w.trigger_view().repeat_count->0 >= 1,
        w.repeated() == 0,
        stores.len() == results.len() + 1,
        nows.len() == results.len(),
        stores[0] == seq![w],
        forall|k: int|
            0 <= k < results.len() ==> #[trigger] next_job_outcome(
                stores[k],
                stores[k + 1],
                results[k],
                nows[k],
            ),
    ensures
        forall|k: int|
            0 <= k < results.len() && k < w.trigger_view().repeat_count->0 ==> #[trigger] results[k]
                == Some(w.job()),
        forall|k: int|
            0 <= k < results.len() && k >= w.trigger_view().repeat_count->0 ==> #[trigger] results[k] is None,
{
    lemma_store_runs_upto(w, stores, results, nows, results.len() as int);
}

proof fn lemma_store_runs_upto<F>(
    w: TriggerWrapper<F>,
    stores: Seq<Seq<TriggerWrapper<F>>>,
    results: Seq<Option<Arc<Job<F>>>>,
    nows: Seq<i128>,
    m: int,
)
    requires
        0 <= m <= results.len(),
        forall|k: int| 0 <= k < nows.len() ==> end_not_reached(w.trigger_view(), #[trigger] nows[k]),
        w.trigger_view().repeat_count is Some,
        w.trigger_view().repeat_count->0 >= 1,
        w.repeated() == 0,
        stores.len() == results.len() + 1,
        nows.len() == results.len(),
        stores[0] == seq![w],
        forall|k: int|
            0 <= k < results.len() ==> #[trigger] next_job_outcome(
                stores[k],
                stores[k + 1],
                results[k],
                nows[k],
            ),
    ensures
        store_after_runs(w, stores[m], m),
        forall|k: int|
            0 <= k < m && k < w.trigger_view().repeat_count->0 ==> #[trigger] results[k] == Some(w.job()),
        forall|k: int|
            0 <= k < m && k >= w.trigger_view().repeat_count->0 ==> #[trigger] results[k] is None,
    decreases m,
{
    if m == 0 {
        if 0 < w.trigger_view().repeat_count->0 {
            assert(stores[0][0] == w);
        }
    } else {
        lemma_store_runs_upto(w, stores, results, nows, m - 1);
        let k = m - 1;
        assert(0 <= k < results.len());
        assert(next_job_outcome(stores[k], stores[k + 1], results[k], nows[k]));
        assert(end_not_reached(w.trigger_view(), nows[m - 1]));
        lemma_store_runs_step(w, stores[m - 1], stores[m], results[m - 1], nows[m - 1], m - 1);
    }
}


/// Firing an entry at `now` schedules it again exactly when its end time is
/// not reached within one interval of `now` and it has a repeat count with a
/// run left after this one: one more than the runs it has had so far is still
/// below the count. Whether the trigger has an end time matters only through
/// that comparison.
pub proof fn lemma_fire_reschedules_iff<F>(w: TriggerWrapper<F>, now: i128)
    ensures
        reschedules(w, now) <==> (end_not_reached(w.trigger_view(), now) && (
        w.trigger_view().repeat_count matches Some(n) && w.repeated() + 1 < n)),
{
}

} // verus!
