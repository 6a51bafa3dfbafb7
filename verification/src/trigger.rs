//! Triggers: the schedule on which a job fires.

use vstd::prelude::*;
use crate::clock::{is_span, is_time_point, now};

verus! {

/// What a [`Trigger`] describes, as plain values. Times are time points and the
/// interval is a span of time, in nanoseconds (see [`crate::clock`]).
pub struct TriggerView {
    pub id: Seq<char>,
    pub group: Seq<char>,
    pub start_time: Option<i128>,
    pub end_time: Option<i128>,
    pub interval: Option<u128>,
    pub repeat_count: Option<u32>,
}

/// Describes the schedule to use when scheduling jobs: when to start, when to
/// stop, how often to repeat and how many times.
#[derive(Debug, PartialEq, Eq)]
pub struct Trigger {
    id: String,
    group: String,
    start_time: Option<i128>,
    end_time: Option<i128>,
    interval: Option<u128>,
    repeat_count: Option<u32>,
}

impl View for Trigger {
    type V = TriggerView;

    closed spec fn view(&self) -> TriggerView {
        TriggerView {
            id: self.id@,
            group: self.group@,
            start_time: self.start_time,
            end_time: self.end_time,
            interval: self.interval,
            repeat_count: self.repeat_count,
        }
    }
}

/// The times of `t` are time points and its interval is a span.
pub open spec fn in_range(t: TriggerView) -> bool {
    &&& (t.start_time matches Some(s) ==> is_time_point(s))
    &&& (t.end_time matches Some(e) ==> is_time_point(e))
    &&& (t.interval matches Some(i) ==> is_span(i))
}

impl Trigger {
    /// Every trigger's times and interval are in range.
    #[verifier::type_invariant]
    spec fn trigger_in_range(self) -> bool {
        in_range(self@)
    }
}

/// When a trigger fires, given the current time: its start time, or now when it
/// has none.
pub open spec fn fire_time(t: TriggerView, now: i128) -> i128 {
    match t.start_time {
        Some(s) => s,
        None => now,
    }
}

/// The interval of a trigger, zero when it has none.
pub open spec fn interval_or_zero(t: TriggerView) -> u128 {
    match t.interval {
        Some(i) => i,
        None => 0,
    }
}

impl Trigger {
    /// Creates a trigger referenced by `id` and `group`, with no start time, no
    /// end time, no interval and no repeat count.
    pub fn with_identity(id: &str, group: &str) -> (t: Trigger)
        ensures
            t@ == (TriggerView {
                id: id@,
                group: group@,
                start_time: None,
                end_time: None,
                interval: None,
                repeat_count: None,
            }),
    {
        Trigger {
            id: id.to_owned(),
            group: group.to_owned(),
            start_time: None,
            end_time: None,
            interval: None,
            repeat_count: None,
        }
    }

    /// The trigger's identity.
    pub fn id(&self) -> (r: &str)
        ensures
            r@ == self@.id,
    {
        self.id.as_str()
    }

    /// The trigger's group.
    pub fn group(&self) -> (r: &str)
        ensures
            r@ == self@.group,
    {
        self.group.as_str()
    }

    /// The same trigger, starting at `start_time`.
    pub fn start_at(self, start_time: i128) -> (t: Trigger)
        requires
            is_time_point(start_time),
        ensures
            t@ == (TriggerView { start_time: Some(start_time), ..self@ }),
    {
        proof {
            use_type_invariant(&self);
        }
        Trigger { start_time: Some(start_time), ..self }
    }

    /// The same trigger, stopping at `end_time`.
    pub fn end_at(self, end_time: i128) -> (t: Trigger)
        requires
            is_time_point(end_time),
        ensures
            t@ == (TriggerView { end_time: Some(end_time), ..self@ }),
    {
        proof {
            use_type_invariant(&self);
        }
        Trigger { end_time: Some(end_time), ..self }
    }

    /// The same trigger, repeating every `interval` nanoseconds.
    pub fn every(self, interval: u128) -> (t: Trigger)
        requires
            is_span(interval),
        ensures
            t@ == (TriggerView { interval: Some(interval), ..self@ }),
    {
        proof {
            use_type_invariant(&self);
        }
        Trigger { interval: Some(interval), ..self }
    }

    /// The same trigger, firing `repeat_count` times (once, for zero).
    pub fn repeat_count(self, repeat_count: u32) -> (t: Trigger)
        ensures
            t@ == (TriggerView { repeat_count: Some(repeat_count), ..self@ }),
    {
        proof {
            use_type_invariant(&self);
        }
        Trigger { repeat_count: Some(repeat_count), ..self }
    }

    /// The start time, if one was set.
    pub fn start_time(&self) -> (r: Option<i128>)
        ensures
            r == self@.start_time,
            in_range(self@),
    {
        proof {
            use_type_invariant(self);
        }
        self.start_time
    }

    /// The end time, if one was set.
    pub fn end_time(&self) -> (r: Option<i128>)
        ensures
            r == self@.end_time,
            in_range(self@),
    {
        proof {
            use_type_invariant(self);
        }
        self.end_time
    }

    /// The interval, if one was set.
    pub fn interval(&self) -> (r: Option<u128>)
        ensures
            r == self@.interval,
            in_range(self@),
    {
        proof {
            use_type_invariant(self);
        }
        self.interval
    }

    /// The number of times to fire, if one was set.
    pub fn repeat_count_value(&self) -> (r: Option<u32>)
        ensures
            r == self@.repeat_count,
    {
        self.repeat_count
    }

    /// When the trigger fires, the current time being `now`.
    pub fn next_fire_at(&self, now: i128) -> (r: i128)
        ensures
            r == fire_time(self@, now),
            in_range(self@),
    {
        proof {
            use_type_invariant(self);
        }
        match self.start_time {
            Some(s) => s,
            None => now,
        }
    }

    /// When the trigger fires next: its start time, or the current time when it
    /// has none.
    pub fn next_fire(&self) -> (r: i128)
        ensures
            self@.start_time is Some ==> r == self@.start_time->0,
            exists|t: i128| is_time_point(t) && r == #[trigger] fire_time(self@, t),
    {
        match self.start_time {
            Some(s) => {
                proof {
                    use_type_invariant(self);
                }
                assert(s == fire_time(self@, s));
                s
            },
            None => {
                let t = now();
                assert(t == fire_time(self@, t));
                t
            },
        }
    }
}

} // verus!
