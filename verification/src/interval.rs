//! The interval trigger.

use vstd::prelude::*;
use crate::telegram::{elapsed, nanos_per_sec};

verus! {

/// Whether the interval trigger is due at `now`: always when it never fired,
/// otherwise once at least `interval_secs` whole seconds have passed since it
/// last fired. Times are nanoseconds on a monotonic clock.
pub open spec fn interval_due(last_trigger: Option<u64>, now: u64, interval_secs: u64) -> bool {
    match last_trigger {
        Some(t) => elapsed(t, now) / nanos_per_sec() >= interval_secs,
        None => true,
    }
}

/// Returns true if the interval trigger is due.
pub fn is_due(last_trigger: Option<u64>, now: u64, interval_secs: u64) -> (due: bool)
    ensures
        due == interval_due(last_trigger, now, interval_secs),
{
    match last_trigger {
        Some(t) => {
            let since: u64 = if now >= t {
                now - t
            } else {
                0
            };
            since / 1_000_000_000 >= interval_secs
        },
        None => true,
    }
}

/// Once due, the trigger stays due as time goes on, and a trigger that never
/// fired is due at once.
pub proof fn lemma_due_stays_due(last_trigger: Option<u64>, now: u64, later: u64, interval_secs: u64)
    requires
        now <= later,
    ensures
        interval_due(None, now, interval_secs),
        interval_due(last_trigger, now, interval_secs) ==> interval_due(last_trigger, later, interval_secs),
{
    if let Some(t) = last_trigger {
        if interval_due(last_trigger, now, interval_secs) {
            assert(elapsed(t, now) <= elapsed(t, later));
            vstd::arithmetic::div_mod::lemma_div_is_ordered(elapsed(t, now), elapsed(t, later), nanos_per_sec());
        }
    }
}

/// A trigger that has just fired is not due again before the interval has
/// passed (for a positive interval).
pub proof fn lemma_not_due_right_after(t: u64, now: u64, interval_secs: u64)
    requires
        interval_secs > 0,
        t <= now,
        now - t < interval_secs * nanos_per_sec(),
    ensures
        !interval_due(Some(t), now, interval_secs),
{
    let e = elapsed(t, now);
    vstd::arithmetic::div_mod::lemma_div_is_ordered(e, interval_secs * nanos_per_sec() - 1, nanos_per_sec());
    assert((interval_secs * nanos_per_sec() - 1) / nanos_per_sec() < interval_secs) by (nonlinear_arith)
        requires interval_secs > 0;
}

} // verus!
