//! Rate limiting and retry back-off for calls to the model service.
//!
//! The service allows ten requests a minute per user; the limiter keeps to
//! nine. Three attempts: after a 429 wait 15 s times the attempt, after
//! other errors 2 s times the attempt; other 4xx answers are not retried.
use vstd::prelude::*;
use std::collections::VecDeque;
use crate::text::{
    chars_of, contains_s, contains_str, find_exec, find_from, lemma_find_from, parse_u64,
    parse_u64_s, subvec, take_chars, take_chars_exec,
};

verus! {

/// Requests allowed per minute.
pub const RATE_LIMIT_PER_MINUTE: usize = 9;

/// Attempts per request.
pub const MAX_RETRIES: usize = 3;

/// Back-off base after a 429 (seconds).
pub const BACKOFF_RATE_LIMIT_SECS: u64 = 15;

/// Back-off base after other errors (seconds).
pub const BACKOFF_OTHER_SECS: u64 = 2;

/// Wait used when the window has already passed (milliseconds).
pub const MIN_WAIT_MS: u64 = 200;

/// A sliding-window limiter: at most `max_requests` grants within any
/// `window_ms` milliseconds. Times are milliseconds on a clock the caller reads.
pub struct RateLimiter {
    max_requests: usize,
    window_ms: u64,
    stamps: VecDeque<u64>,
}

/// What the limiter answers.
#[derive(Debug, Clone, Copy, PartialEq, Eq, Structural)]
pub enum Acquire {
    /// go ahead now
    Granted,
    /// ask again after this many milliseconds
    Wait(u64),
}

/// `a - b`, or zero.
pub open spec fn sat_sub(a: u64, b: u64) -> u64 {
    if a >= b {
        (a - b) as u64
    } else {
        0
    }
}

/// The grants still inside the window at `now`: expired ones leave from the front.
pub open spec fn unexpired(s: Seq<u64>, now: u64, window: u64) -> Seq<u64>
    decreases s.len(),
{
    if s.len() > 0 && sat_sub(now, s[0]) >= window {
        unexpired(s.drop_first(), now, window)
    } else {
        s
    }
}

/// The wait until the oldest grant `first` leaves the window (at least `MIN_WAIT_MS`).
pub open spec fn wait_for(first: u64, now: u64, window: u64) -> u64 {
    let w = sat_sub(window, sat_sub(now, first));
    if w > 0 {
        w
    } else {
        MIN_WAIT_MS
    }
}

impl RateLimiter {
    /// Grants remembered, oldest first.
    pub closed spec fn stamps(&self) -> Seq<u64> {
        self.stamps@
    }

    /// Grants allowed per window.
    pub closed spec fn max_requests(&self) -> usize {
        self.max_requests
    }

    /// Length of the window in milliseconds.
    pub closed spec fn window_ms(&self) -> u64 {
        self.window_ms
    }

    /// The limiter's invariant: at least one grant per window, and no more
    /// remembered than that.
    pub open spec fn wf(&self) -> bool {
        self.max_requests() >= 1 && self.stamps().len() <= self.max_requests()
    }

    /// A limiter for `max_requests` (at least one) per `window_ms`.
    pub fn new(max_requests: usize, window_ms: u64) -> (r: Self)
        ensures
            r.wf(),
            r.max_requests() == if max_requests >= 1 {
                max_requests
            } else {
                1
            },
            r.window_ms() == window_ms,
            r.stamps() == Seq::<u64>::empty(),
    {
        RateLimiter {
            max_requests: if max_requests >= 1 {
                max_requests
            } else {
                1
            },
            window_ms,
            stamps: VecDeque::new(),
        }
    }

    /// Asks for a grant at time `now_ms`: expired grants are forgotten; with
    /// room left the request is granted and remembered, else the answer is how
    /// long to wait for the oldest grant to leave the window.
    pub fn acquire_at(&mut self, now_ms: u64) -> (r: Acquire)
        requires
            old(self).wf(),
        ensures
            final(self).wf(),
            final(self).max_requests() == old(self).max_requests(),
            final(self).window_ms() == old(self).window_ms(),
            (final(self).stamps(), r is Granted) == crate::limiter_law::limiter_step_s(
                old(self).max_requests(),
                old(self).window_ms(),
                old(self).stamps(),
                now_ms,
            ),
            ({
                let kept = unexpired(old(self).stamps(), now_ms, old(self).window_ms());
                if kept.len() < old(self).max_requests() {
                    r == Acquire::Granted && final(self).stamps() == kept.push(now_ms)
                } else {
                    r == Acquire::Wait(wait_for(kept[0], now_ms, old(self).window_ms()))
                        && final(self).stamps() == kept
                }
            }),
    {
        broadcast use vstd::std_specs::vecdeque::group_vec_dequeue_axioms;

        let ghost s0 = self.stamps@;
        loop
            invariant
                self.max_requests == old(self).max_requests,
                self.window_ms == old(self).window_ms,
                self.stamps@.len() <= s0.len(),
                s0 == old(self).stamps@,
                unexpired(self.stamps@, now_ms, self.window_ms) == unexpired(
                    s0,
                    now_ms,
                    self.window_ms,
                ),
            ensures
                self.max_requests == old(self).max_requests,
                self.window_ms == old(self).window_ms,
                self.stamps@.len() <= s0.len(),
                self.stamps@ == unexpired(s0, now_ms, self.window_ms),
            decreases self.stamps@.len(),
        {
            if self.stamps.len() == 0 {
                break;
            }
            let front = self.stamps[0];
            let age = if now_ms >= front {
                now_ms - front
            } else {
                0
            };
            if age >= self.window_ms {
                let _ = self.stamps.pop_front();
            } else {
                break;
            }
        }
        if self.stamps.len() < self.max_requests {
            self.stamps.push_back(now_ms);
            return Acquire::Granted;
        }
        let first = self.stamps[0];
        let age = if now_ms >= first {
            now_ms - first
        } else {
            0
        };
        let w = if self.window_ms >= age {
            self.window_ms - age
        } else {
            0
        };
        Acquire::Wait(
            if w > 0 {
                w
            } else {
                MIN_WAIT_MS
            },
        )
    }
}

/// Meaning of `is_fatal_http`: the three characters after `返回 ` read as a
/// status code between 400 and 499 other than 429.
pub open spec fn is_fatal_http_s(err: Seq<char>) -> bool {
    match find_from(err, "返回 "@, 0) {
        None => false,
        Some(i) => match parse_u64_s(take_chars(err.skip(i + "返回 "@.len()), 3)) {
            Some(code) => code != 429 && 400 <= code < 500,
            None => false,
        },
    }
}

/// Whether an error message reports a status that retrying will not change
/// (a 4xx other than 429).
pub fn is_fatal_http(err: &str) -> (b: bool)
    ensures
        b == is_fatal_http_s(err@),
{
    let e = chars_of(err);
    let marker = chars_of("返回 ");
    match find_exec(e.as_slice(), marker.as_slice(), 0) {
        None => false,
        Some(i) => {
            proof {
                lemma_find_from(e@, marker@, 0);
            }
            let elen = e.len();
            assert(i + marker@.len() <= elen);
            let rest = subvec(e.as_slice(), i + marker.len(), e.len());
            assert(rest@ =~= e@.skip(i + "返回 "@.len()));
            let code = take_chars_exec(rest.as_slice(), 3);
            match parse_u64(code.as_slice()) {
                Some(c) => c != 429 && 400 <= c && c < 500,
                None => false,
            }
        },
    }
}

/// Meaning of `backoff_for`, in seconds.
pub open spec fn backoff_s(err: Seq<char>, attempt: int) -> int {
    let base = if contains_s(err, "429"@) {
        BACKOFF_RATE_LIMIT_SECS
    } else {
        BACKOFF_OTHER_SECS
    };
    base * if attempt >= 1 {
        attempt
    } else {
        1
    }
}

/// Seconds to wait after failed attempt `attempt` (at least the first
/// multiple): 15 per attempt after a 429, 2 otherwise.
pub fn backoff_for(err: &str, attempt: usize) -> (r: u64)
    requires
        backoff_s(err@, attempt as int) <= u64::MAX,
    ensures
        r == backoff_s(err@, attempt as int),
{
    let base: u64 = if contains_str(chars_of(err).as_slice(), "429") {
        BACKOFF_RATE_LIMIT_SECS
    } else {
        BACKOFF_OTHER_SECS
    };
    let n: u64 = if attempt >= 1 {
        attempt as u64
    } else {
        1
    };
    base * n
}

/// What to do after a failed attempt.
#[derive(Debug, Clone, Copy, PartialEq, Eq, Structural)]
pub enum RetryDecision {
    /// the service refused the JSON response format: ask again without it
    SwitchOffJson,
    /// stop and report the error
    GiveUp,
    /// wait this many seconds, then try the next attempt
    RetryAfter(u64),
}

/// Meaning of `retry_decision`.
pub open spec fn retry_decision_s(attempt: int, json_mode: bool, err: Seq<char>) -> RetryDecision {
    if json_mode && contains_s(err, "400"@) {
        RetryDecision::SwitchOffJson
    } else if is_fatal_http_s(err) || attempt == MAX_RETRIES {
        RetryDecision::GiveUp
    } else {
        RetryDecision::RetryAfter(backoff_s(err, attempt) as u64)
    }
}

/// After attempt `attempt` failed with `err`: drop the JSON response format
/// when the service answered 400 to it, give up on a definite refusal or
/// after the last attempt, else back off.
pub fn retry_decision(attempt: usize, json_mode: bool, err: &str) -> (r: RetryDecision)
    requires
        backoff_s(err@, attempt as int) <= u64::MAX,
    ensures
        r == retry_decision_s(attempt as int, json_mode, err@),
{
    if json_mode && contains_str(chars_of(err).as_slice(), "400") {
        return RetryDecision::SwitchOffJson;
    }
    if is_fatal_http(err) || attempt == MAX_RETRIES {
        return RetryDecision::GiveUp;
    }
    RetryDecision::RetryAfter(backoff_for(err, attempt))
}

/// Grants in the order they were made (times never go back), none after `now`.
pub open spec fn in_time_order(s: Seq<u64>, now: u64) -> bool {
    &&& forall|i: int, j: int| 0 <= i < j < s.len() ==> s[i] <= s[j]
    &&& forall|i: int| 0 <= i < s.len() ==> s[i] <= now
}

/// Whether a grant made at `g` lies inside the window that ends at `now`.
pub open spec fn within(now: u64, window: u64, g: u64) -> bool {
    sat_sub(now, g) < window
}

/// The limiter forgets exactly the grants that left the window: when the
/// grants are in time order, those kept at `now` are the grants of the last
/// `window` milliseconds, still in order.
pub proof fn lemma_unexpired_is_window(s: Seq<u64>, now: u64, window: u64)
    requires
        in_time_order(s, now),
    ensures
        unexpired(s, now, window) == s.filter(|g: u64| within(now, window, g)),
        in_time_order(unexpired(s, now, window), now),
    decreases s.len(),
{
    let keep = |g: u64| within(now, window, g);
    if s.len() == 0 {
        assert(s.filter(keep) =~= s);
    } else if sat_sub(now, s[0]) >= window {
        let rest = s.drop_first();
        assert(in_time_order(rest, now)) by {
            assert forall|i: int, j: int| 0 <= i < j < rest.len() implies rest[i] <= rest[j] by {
                assert(rest[i] == s[i + 1] && rest[j] == s[j + 1]);
            }
            assert forall|i: int| 0 <= i < rest.len() implies rest[i] <= now by {
                assert(rest[i] == s[i + 1]);
            }
        }
        lemma_unexpired_is_window(rest, now, window);
        lemma_filter_cons(s, keep);
    } else {
        // the oldest grant is inside the window, so all later ones are too
        assert forall|i: int| 0 <= i < s.len() implies keep(s[i]) by {
            assert(s[0] <= s[i]);
        }
        lemma_filter_all(s, keep);
    }
}

proof fn lemma_filter_cons(s: Seq<u64>, p: spec_fn(u64) -> bool)
    requires
        s.len() > 0,
        !p(s[0]),
    ensures
        s.filter(p) == s.drop_first().filter(p),
    decreases s.len(),
{
    reveal(Seq::filter);
    if s.len() == 1 {
        assert(s.drop_first() =~= Seq::<u64>::empty());
        assert(s.drop_last() =~= Seq::<u64>::empty());
        assert(s.last() == s[0]);
    } else {
        lemma_filter_cons(s.drop_last(), p);
        assert(s.drop_last().drop_first() =~= s.drop_first().drop_last());
        assert(s.drop_first().last() == s.last());
    }
}

proof fn lemma_filter_all(s: Seq<u64>, p: spec_fn(u64) -> bool)
    requires
        forall|i: int| 0 <= i < s.len() ==> p(s[i]),
    ensures
        s.filter(p) == s,
    decreases s.len(),
{
    reveal(Seq::filter);
    if s.len() > 0 {
        lemma_filter_all(s.drop_last(), p);
        assert(p(s.last()));
        assert(s.drop_last().push(s.last()) =~= s);
    } else {
        assert(s.filter(p) =~= s);
    }
}

} // verus!
