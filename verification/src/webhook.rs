//! Admission of webhook requests: the shared-secret check and the per-minute
//! rate limit.

use vstd::prelude::*;
use vstd::string::*;
use crate::executor::TriggerReason;
use crate::json::{JsonValue, JsonView};
use crate::telegram::{elapsed, nanos_per_sec};

verus! {

/// Byte comparison whose running time depends only on the lengths, so that the
/// secret is not leaked via response timing.
pub fn ct_eq(a: &[u8], b: &[u8]) -> (r: bool)
    ensures
        r == (a@ == b@),
{
    if a.len() != b.len() {
        return false;
    }
    let mut diff: u8 = 0;
    let mut i: usize = 0;
    while i < a.len()
        invariant
            a@.len() == b@.len(),
            i <= a@.len(),
            (diff == 0) == (forall|j: int| 0 <= j < i ==> a@[j] == b@[j]),
        decreases a.len() - i,
    {
        let x = a[i];
        let y = b[i];
        let d = diff | (x ^ y);
        assert((d == 0) == (diff == 0 && x == y)) by (bit_vector)
            requires
                d == diff | (x ^ y),
        ;
        diff = d;
        i = i + 1;
    }
    proof {
        if diff == 0 {
            assert(a@ =~= b@);
        }
    }
    diff == 0
}

/// Seconds in one rate-limit window.
pub open spec fn window_secs() -> int {
    60
}

/// A fixed one-minute window and the number of triggers accepted in it.
pub struct RateLimiter {
    pub window_start: u64,
    pub count: u32,
}

/// The limiter and the answer after one trigger arrives at `now`. A limit of zero
/// accepts everything and leaves the window alone. Otherwise a window that has
/// run a minute or more restarts at `now` with nothing accepted, and a trigger
/// is accepted, and counted, while fewer than `max_per_minute` were accepted in
/// the window.
pub open spec fn limit_step(l: RateLimiter, now: u64, max_per_minute: u32) -> (RateLimiter, bool) {
    if max_per_minute == 0 {
        (l, true)
    } else {
        let expired = elapsed(l.window_start, now) / nanos_per_sec() >= window_secs();
        let start = if expired {
            now
        } else {
            l.window_start
        };
        let count: u32 = if expired {
            0
        } else {
            l.count
        };
        if count < max_per_minute {
            (RateLimiter { window_start: start, count: (count + 1) as u32 }, true)
        } else {
            (RateLimiter { window_start: start, count }, false)
        }
    }
}

impl RateLimiter {
    /// A window opening at `now`, with nothing accepted yet.
    pub fn new(now: u64) -> (r: Self)
        ensures
            r.window_start == now,
            r.count == 0,
    {
        RateLimiter { window_start: now, count: 0 }
    }

    /// Whether one more trigger may be accepted at `now` (nanoseconds on a
    /// monotonic clock), as `limit_step` says.
    pub fn allow(&mut self, now: u64, max_per_minute: u32) -> (ok: bool)
        ensures
            (*final(self), ok) == limit_step(*old(self), now, max_per_minute),
    {
        if max_per_minute == 0 {
            return true;
        }
        let since: u64 = if now >= self.window_start {
            now - self.window_start
        } else {
            0
        };
        if since / 1_000_000_000 >= 60 {
            self.window_start = now;
            self.count = 0;
        }
        if self.count >= max_per_minute {
            false
        } else {
            self.count = self.count + 1;
            true
        }
    }
}

/// The count never passes a positive limit; within one window every accepted
/// trigger is counted, and none is accepted once the limit is reached.
pub proof fn lemma_limit_bounded(l: RateLimiter, now: u64, max_per_minute: u32)
    requires
        max_per_minute > 0,
        l.count <= max_per_minute,
    ensures
        limit_step(l, now, max_per_minute).0.count <= max_per_minute,
        limit_step(l, now, max_per_minute).0.window_start == l.window_start && limit_step(l, now, max_per_minute).1
            ==> limit_step(l, now, max_per_minute).0.count == l.count + 1,
        limit_step(l, now, max_per_minute).0.window_start == l.window_start && l.count == max_per_minute
            ==> !limit_step(l, now, max_per_minute).1,
{
}

/// The limiter after triggers arrive at the times `ts`, in order, and how many
/// of them were accepted.
pub open spec fn limit_run(l: RateLimiter, ts: Seq<u64>, max_per_minute: u32) -> (RateLimiter, nat)
    decreases ts.len(),
{
    if ts.len() == 0 {
        (l, 0)
    } else {
        let (mid, n) = limit_run(l, ts.drop_last(), max_per_minute);
        let (next, ok) = limit_step(mid, ts.last(), max_per_minute);
        (next, if ok {
            n + 1
        } else {
            n
        })
    }
}

/// Within one minute of the window's start, no more than `max_per_minute`
/// triggers are accepted, whatever the order and number of requests.
pub proof fn lemma_at_most_max_per_window(l: RateLimiter, ts: Seq<u64>, max_per_minute: u32)
    requires
        max_per_minute > 0,
        l.count <= max_per_minute,
        forall|i: int| 0 <= i < ts.len() ==> elapsed(l.window_start, #[trigger] ts[i]) < window_secs() * nanos_per_sec(),
    ensures
        limit_run(l, ts, max_per_minute).0.window_start == l.window_start,
        limit_run(l, ts, max_per_minute).0.count == l.count + limit_run(l, ts, max_per_minute).1,
        l.count + limit_run(l, ts, max_per_minute).1 <= max_per_minute,
    decreases ts.len(),
{
    if ts.len() > 0 {
        let pre = ts.drop_last();
        assert forall|i: int| 0 <= i < pre.len() implies elapsed(l.window_start, #[trigger] pre[i]) < window_secs() * nanos_per_sec() by {
            assert(pre[i] == ts[i]);
        }
        lemma_at_most_max_per_window(l, pre, max_per_minute);
        let t = ts.last();
        assert(elapsed(l.window_start, t) < window_secs() * nanos_per_sec());
        let e = elapsed(l.window_start, t);
        assert(e / 1_000_000_000 < 60) by (nonlinear_arith)
            requires
                0 <= e < 60 * 1_000_000_000,
        ;
    }
}

/// The answers given to triggers arriving at the times `ts`, in order.
pub open spec fn limit_answers(l: RateLimiter, ts: Seq<u64>, max_per_minute: u32) -> Seq<bool>
    decreases ts.len(),
{
    if ts.len() == 0 {
        Seq::empty()
    } else {
        limit_answers(l, ts.drop_last(), max_per_minute).push(
            limit_step(limit_run(l, ts.drop_last(), max_per_minute).0, ts.last(), max_per_minute).1,
        )
    }
}

/// Within one minute of the window's start, the `i`-th trigger is accepted
/// exactly when fewer than `max_per_minute` were accepted before it: with
/// `count` already accepted, exactly the first `max_per_minute - count` triggers
/// go through and every later one is refused. The window stays where it is and
/// ends up counting the smaller of `count + ts.len()` and `max_per_minute`.
pub proof fn lemma_first_triggers_accepted(l: RateLimiter, ts: Seq<u64>, max_per_minute: u32)
    requires
        max_per_minute > 0,
        l.count <= max_per_minute,
        forall|i: int| 0 <= i < ts.len() ==> elapsed(l.window_start, #[trigger] ts[i]) < window_secs() * nanos_per_sec(),
    ensures
        limit_answers(l, ts, max_per_minute).len() == ts.len(),
        forall|i: int| 0 <= i < ts.len() ==> #[trigger] limit_answers(l, ts, max_per_minute)[i] == (l.count + i < max_per_minute),
        limit_run(l, ts, max_per_minute).0.window_start == l.window_start,
        limit_run(l, ts, max_per_minute).0.count == if l.count + ts.len() < max_per_minute {
            l.count + ts.len()
        } else {
            max_per_minute as int
        },
    decreases ts.len(),
{
    if ts.len() > 0 {
        let pre = ts.drop_last();
        assert forall|i: int| 0 <= i < pre.len() implies elapsed(l.window_start, #[trigger] pre[i]) < window_secs() * nanos_per_sec() by {
            assert(pre[i] == ts[i]);
        }
        lemma_first_triggers_accepted(l, pre, max_per_minute);
        let t = ts.last();
        assert(elapsed(l.window_start, t) < window_secs() * nanos_per_sec());
        let e = elapsed(l.window_start, t);
        assert(e / 1_000_000_000 < 60) by (nonlinear_arith)
            requires
                0 <= e < 60 * 1_000_000_000,
        ;
        let a = limit_answers(l, ts, max_per_minute);
        assert forall|i: int| 0 <= i < ts.len() implies #[trigger] a[i] == (l.count + i < max_per_minute) by {
            if i < pre.len() {
                assert(a[i] == limit_answers(l, pre, max_per_minute)[i]);
            }
        }
    }
}

/// A trigger that arrives a minute or more after the window opened starts a new
/// window at its own time and is accepted as the first of it.
pub proof fn lemma_window_restarts(l: RateLimiter, now: u64, max_per_minute: u32)
    requires
        max_per_minute > 0,
        elapsed(l.window_start, now) >= window_secs() * nanos_per_sec(),
    ensures
        limit_step(l, now, max_per_minute) == (RateLimiter { window_start: now, count: 1 }, true),
{
    let e = elapsed(l.window_start, now);
    assert(e / 1_000_000_000 >= 60) by (nonlinear_arith)
        requires
            e >= 60 * 1_000_000_000,
    ;
}

/// What becomes of a webhook request.
#[derive(Debug, Clone, Copy, PartialEq, Eq, Structural)]
pub enum WebhookVerdict {
    /// The shared secret did not match.
    Unauthorized,
    /// Too many triggers were accepted in the current minute.
    RateLimited,
    /// The trigger is queued for execution.
    Accepted,
}

/// The secret check passes: no secret is configured, or the request's secret
/// header, taken as empty when absent, has exactly the configured bytes.
pub open spec fn secret_matches(expected: Option<&str>, provided: Option<&str>) -> bool {
    match expected {
        None => true,
        Some(e) => e.spec_bytes() == match provided {
            Some(p) => p.spec_bytes(),
            None => Seq::<u8>::empty(),
        },
    }
}

/// Decides a webhook request: unauthorized when the secret does not match (the
/// limiter is then left alone); otherwise accepted or rate limited as the
/// limiter decides.
pub fn decide_webhook(
    expected_secret: Option<&str>,
    provided_secret: Option<&str>,
    limiter: &mut RateLimiter,
    now: u64,
    max_per_minute: u32,
) -> (v: WebhookVerdict)
    ensures
        !secret_matches(expected_secret, provided_secret) ==> v == WebhookVerdict::Unauthorized
            && *final(limiter) == *old(limiter),
        secret_matches(expected_secret, provided_secret) ==> (*final(limiter), v == WebhookVerdict::Accepted)
            == limit_step(*old(limiter), now, max_per_minute) && v != WebhookVerdict::Unauthorized,
{
    if let Some(expected) = expected_secret {
        let empty: Vec<u8> = Vec::new();
        let given: &[u8] = match provided_secret {
            Some(p) => p.as_bytes(),
            None => empty.as_slice(),
        };
        if !ct_eq(given, expected.as_bytes()) {
            return WebhookVerdict::Unauthorized;
        }
    }
    if limiter.allow(now, max_per_minute) {
        WebhookVerdict::Accepted
    } else {
        WebhookVerdict::RateLimited
    }
}

/// The trigger for an accepted webhook request: its JSON body, or an empty
/// object when it has none.
pub fn webhook_trigger(body: Option<JsonValue>) -> (t: TriggerReason)
    ensures
        t matches TriggerReason::Webhook { data } && data@ == match body {
            Some(b) => b@,
            None => JsonView::Object(Seq::empty()),
        },
{
    let data = match body {
        Some(b) => b,
        None => JsonValue::Object(Vec::new()),
    };
    proof {
        if body is None {
            assert(data@->Object_0 =~= Seq::<(Seq<char>, JsonView)>::empty());
        }
    }
    TriggerReason::Webhook { data }
}

} // verus!
