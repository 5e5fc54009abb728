//! The decisions of the scheduler's main loop: when the interval trigger fires,
//! and when failures raise an alert.

use vstd::prelude::*;
use vstd::string::*;
use crate::interval::{interval_due, is_due};
use crate::text::{decimal, u64_to_decimal};

verus! {

/// The state that the main loop keeps between events.
pub struct SchedulerState {
    /// When the interval trigger last fired (nanoseconds on a monotonic clock).
    pub last_interval_trigger: Option<u64>,
    /// Executions that failed since the last one that succeeded.
    pub consecutive_failures: u32,
}

impl SchedulerState {
    /// Nothing has run yet.
    pub fn new() -> (s: Self)
        ensures
            s.last_interval_trigger is None,
            s.consecutive_failures == 0,
    {
        SchedulerState { last_interval_trigger: None, consecutive_failures: 0 }
    }

    /// Whether the interval trigger is due at `now`.
    pub fn interval_due(&self, now: u64, interval_secs: u64) -> (due: bool)
        ensures
            due == interval_due(self.last_interval_trigger, now, interval_secs),
    {
        is_due(self.last_interval_trigger, now, interval_secs)
    }

    /// Records that the interval trigger fired at `now`.
    pub fn start_interval(&mut self, now: u64)
        ensures
            final(self).last_interval_trigger == Some(now),
            final(self).consecutive_failures == old(self).consecutive_failures,
    {
        self.last_interval_trigger = Some(now);
    }

    /// Records a successful execution: the failure streak ends.
    pub fn record_success(&mut self)
        ensures
            final(self).consecutive_failures == 0,
            final(self).last_interval_trigger == old(self).last_interval_trigger,
    {
        self.consecutive_failures = 0;
    }

    /// Records a failed execution and says whether it raises an alert: it does
    /// once the streak reaches `failure_threshold`.
    pub fn record_failure(&mut self, failure_threshold: u32) -> (alert: bool)
        requires
            old(self).consecutive_failures < u32::MAX,
        ensures
            final(self).consecutive_failures == old(self).consecutive_failures + 1,
            final(self).last_interval_trigger == old(self).last_interval_trigger,
            alert == (final(self).consecutive_failures >= failure_threshold),
    {
        self.consecutive_failures = self.consecutive_failures + 1;
        self.consecutive_failures >= failure_threshold
    }
}

/// The title of the alert for a failure streak.
pub fn alert_title() -> (t: &'static str)
    ensures
        t@ == "Scheduler Error"@,
{
    "Scheduler Error"
}

/// The alert text for a failure streak.
pub open spec fn failure_message(owner: Seq<char>, name: Seq<char>, failures: u32, error: Seq<char>) -> Seq<char> {
    "Project: "@ + owner + "/"@ + name + "\n"@ + decimal(failures as nat) + " consecutive failures\nLast error: "@
        + error
}

/// `Project: {owner}/{name}`, the streak length, and the last error.
pub fn failure_alert_message(owner: &str, name: &str, failures: u32, error: &str) -> (m: String)
    ensures
        m@ == failure_message(owner@, name@, failures, error@),
{
    let mut m = String::from_str("Project: ");
    m.append(owner);
    m.append("/");
    m.append(name);
    m.append("\n");
    let count = u64_to_decimal(failures as u64);
    m.append(count.as_str());
    m.append(" consecutive failures\nLast error: ");
    m.append(error);
    m
}

} // verus!
