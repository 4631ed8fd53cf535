//! JSON-RPC 2.0 error objects with the Opolys error codes, and the per-client
//! rate limiter that throttles the public RPC endpoint.
//!
//! The limiter keeps, per client key, the instants of its recent requests
//! (as nanoseconds since the limiter was made) and admits a request only while
//! fewer than the limit fall within the last 60 seconds.
use std::time::{Duration, Instant};
use vstd::prelude::*;
use vstd::string::StringExecFns;

verus! {

/// A JSON-RPC error object: a numeric code and a human-readable message.
#[derive(Debug, Clone)]
pub struct JsonRpcError {
    /// JSON-RPC 2.0 standard or application-specific code.
    pub code: i32,
    /// Description of the error.
    pub message: String,
}

/// Code of a request that is not a valid JSON-RPC 2.0 request.
pub const INVALID_REQUEST_CODE: i32 = -32600;
/// Code of an unknown method.
pub const METHOD_NOT_FOUND_CODE: i32 = -32601;
/// Code of invalid or missing parameters.
pub const INVALID_PARAMS_CODE: i32 = -32602;
/// Code of an internal server error.
pub const INTERNAL_ERROR_CODE: i32 = -32603;
/// Code of a resource that was not found.
pub const NOT_FOUND_CODE: i32 = -32001;
/// Code of a method that needs an API key.
pub const UNAUTHORIZED_CODE: i32 = -32004;
/// Code of a client over its rate limit.
pub const RATE_LIMITED_CODE: i32 = -32005;

impl JsonRpcError {
    /// The request envelope is not a valid JSON-RPC 2.0 request.
    pub fn invalid_request(msg: &str) -> (e: Self)
        ensures
            e.code == INVALID_REQUEST_CODE,
            e.message@ == msg@,
    {
        JsonRpcError { code: INVALID_REQUEST_CODE, message: String::from_str(msg) }
    }

    /// The requested method does not exist.
    pub fn method_not_found() -> (e: Self)
        ensures
            e.code == METHOD_NOT_FOUND_CODE,
            e.message@ == "Method not found"@,
    {
        JsonRpcError { code: METHOD_NOT_FOUND_CODE, message: String::from_str("Method not found") }
    }

    /// Invalid or missing method parameters.
    pub fn invalid_params(msg: &str) -> (e: Self)
        ensures
            e.code == INVALID_PARAMS_CODE,
            e.message@ == msg@,
    {
        JsonRpcError { code: INVALID_PARAMS_CODE, message: String::from_str(msg) }
    }

    /// An internal server error.
    pub fn internal_error(msg: &str) -> (e: Self)
        ensures
            e.code == INTERNAL_ERROR_CODE,
            e.message@ == msg@,
    {
        JsonRpcError { code: INTERNAL_ERROR_CODE, message: String::from_str(msg) }
    }

    /// The requested resource was not found.
    pub fn not_found(msg: &str) -> (e: Self)
        ensures
            e.code == NOT_FOUND_CODE,
            e.message@ == msg@,
    {
        JsonRpcError { code: NOT_FOUND_CODE, message: String::from_str(msg) }
    }

    /// The method needs an API key.
    pub fn unauthorized() -> (e: Self)
        ensures
            e.code == UNAUTHORIZED_CODE,
            e.message@
                == "This method requires an API key. Use Authorization: Bearer <key> or X-Api-Key: <key>."@,
    {
        JsonRpcError {
            code: UNAUTHORIZED_CODE,
            message: String::from_str(
                "This method requires an API key. Use Authorization: Bearer <key> or X-Api-Key: <key>.",
            ),
        }
    }

    /// The client exceeded its rate limit.
    pub fn rate_limited() -> (e: Self)
        ensures
            e.code == RATE_LIMITED_CODE,
            e.message@ == "Rate limit exceeded. Too many requests."@,
    {
        JsonRpcError {
            code: RATE_LIMITED_CODE,
            message: String::from_str("Rate limit exceeded. Too many requests."),
        }
    }
}

#[verifier::external_type_specification]
#[verifier::external_body]
pub struct ExInstant(Instant);

/// Reads the monotonic clock (`Instant::now`); nothing is promised of the
/// reading.
#[verifier::external_body]
fn clock_now() -> (t: Instant) {
    Instant::now()
}

/// The time elapsed since `origin` (`Instant::elapsed`); it depends on the
/// clock, so nothing is promised of it.
#[verifier::external_body]
fn clock_elapsed(origin: &Instant) -> (d: Duration) {
    origin.elapsed()
}

/// The whole nanoseconds of a duration (`Duration::as_nanos`); the duration is
/// opaque here, so nothing is stated of the number.
#[verifier::external_body]
fn duration_nanos(d: &Duration) -> (n: u128) {
    d.as_nanos()
}

/// Length of the rate-limit window: 60 seconds, in nanoseconds.
pub const WINDOW_NANOS: u128 = 60_000_000_000;

/// Whether a request made at `t` still counts at `now` (whole seconds elapsed
/// below 60; a stamp after `now` counts as no time elapsed).
pub open spec fn in_window(t: u128, now: u128) -> bool {
    (if now >= t {
        now - t
    } else {
        0
    }) < WINDOW_NANOS
}

/// The stamps of `s` that still count at `now`, in their order.
pub open spec fn recent(s: Seq<u128>, now: u128) -> Seq<u128>
    decreases s.len(),
{
    if s.len() == 0 {
        s
    } else if in_window(s.last(), now) {
        recent(s.drop_last(), now).push(s.last())
    } else {
        recent(s.drop_last(), now)
    }
}

/// The stamps recorded for `key`: those of the first entry with that key, or
/// none.
pub open spec fn history_of(s: Seq<(String, Vec<u128>)>, key: Seq<char>) -> Seq<u128>
    decreases s.len(),
{
    if s.len() == 0 {
        Seq::empty()
    } else if s[0].0@ == key {
        s[0].1@
    } else {
        history_of(s.drop_first(), key)
    }
}

/// The first entry with `key` is at `i`.
pub open spec fn first_with(s: Seq<(String, Vec<u128>)>, key: Seq<char>, i: int) -> bool {
    &&& 0 <= i < s.len()
    &&& s[i].0@ == key
    &&& forall|j: int| 0 <= j < i ==> s[j].0@ != key
}

proof fn lemma_history_first(s: Seq<(String, Vec<u128>)>, key: Seq<char>, i: int)
    requires
        first_with(s, key, i),
    ensures
        history_of(s, key) == s[i].1@,
    decreases i,
{
    if i > 0 {
        assert(s[0].0@ != key);
        assert(first_with(s.drop_first(), key, i - 1)) by {
            assert forall|j: int| 0 <= j < i - 1 implies s.drop_first()[j].0@ != key by {
                assert(s.drop_first()[j] == s[j + 1]);
            }
        }
        lemma_history_first(s.drop_first(), key, i - 1);
    }
}

proof fn lemma_history_absent(s: Seq<(String, Vec<u128>)>, key: Seq<char>)
    requires
        forall|j: int| 0 <= j < s.len() ==> s[j].0@ != key,
    ensures
        history_of(s, key) == Seq::<u128>::empty(),
    decreases s.len(),
{
    if s.len() > 0 {
        assert(s[0].0@ != key);
        assert forall|j: int| 0 <= j < s.drop_first().len() implies s.drop_first()[j].0@ != key by {
            assert(s.drop_first()[j] == s[j + 1]);
        }
        lemma_history_absent(s.drop_first(), key);
    }
}

proof fn lemma_history_update(s: Seq<(String, Vec<u128>)>, key: Seq<char>, i: int, e: (String, Vec<u128>), k: Seq<char>)
    requires
        first_with(s, key, i),
        e.0@ == key,
    ensures
        history_of(s.update(i, e), k) == (if k == key {
            e.1@
        } else {
            history_of(s, k)
        }),
    decreases i,
{
    let t = s.update(i, e);
    if i == 0 {
        assert(t[0] == e);
        if k != key {
            assert(t.drop_first() == s.drop_first());
        }
    } else {
        assert(t[0] == s[0]);
        assert(t.drop_first() == s.drop_first().update(i - 1, e));
        assert(first_with(s.drop_first(), key, i - 1)) by {
            assert forall|j: int| 0 <= j < i - 1 implies s.drop_first()[j].0@ != key by {
                assert(s.drop_first()[j] == s[j + 1]);
            }
        }
        lemma_history_update(s.drop_first(), key, i - 1, e, k);
    }
}

proof fn lemma_history_push(s: Seq<(String, Vec<u128>)>, key: Seq<char>, e: (String, Vec<u128>), k: Seq<char>)
    requires
        forall|j: int| 0 <= j < s.len() ==> s[j].0@ != key,
        e.0@ == key,
    ensures
        history_of(s.push(e), k) == (if k == key {
            e.1@
        } else {
            history_of(s, k)
        }),
    decreases s.len(),
{
    let t = s.push(e);
    if s.len() == 0 {
        assert(t[0] == e);
        if k != key {
            assert(t.drop_first() == Seq::<(String, Vec<u128>)>::empty());
            assert(history_of(t, k) == history_of(t.drop_first(), k));
            assert(history_of(s, k) == Seq::<u128>::empty());
        }
    } else {
        assert(t[0] == s[0]);
        assert(t.drop_first() == s.drop_first().push(e));
        if s[0].0@ != k {
            assert(history_of(t, k) == history_of(t.drop_first(), k));
            assert(history_of(s, k) == history_of(s.drop_first(), k));
        }
        assert forall|j: int| 0 <= j < s.drop_first().len() implies s.drop_first()[j].0@ != key by {
            assert(s.drop_first()[j] == s[j + 1]);
        }
        lemma_history_push(s.drop_first(), key, e, k);
    }
}

/// Per-client rate limiter over a rolling 60-second window.
pub struct RateLimiter {
    origin: Instant,
    requests: Vec<(String, Vec<u128>)>,
    max_per_minute: usize,
}

impl RateLimiter {
    /// The stamps (nanoseconds since the limiter was made) recorded for a client.
    pub closed spec fn history(&self, key: Seq<char>) -> Seq<u128> {
        history_of(self.requests@, key)
    }

    /// The default limit per client per window.
    pub closed spec fn limit(&self) -> usize {
        self.max_per_minute
    }

    /// A limiter admitting `max_per_minute` requests per client per minute,
    /// with no history.
    pub fn new(max_per_minute: usize) -> (r: Self)
        ensures
            r.limit() == max_per_minute,
            forall|k: Seq<char>| #[trigger] r.history(k) == Seq::<u128>::empty(),
    {
        let r = RateLimiter { origin: clock_now(), requests: Vec::new(), max_per_minute };
        assert forall|k: Seq<char>| #[trigger] r.history(k) == Seq::<u128>::empty() by {
            assert(r.requests@.len() == 0);
        }
        r
    }

    /// Decides a request of `key` made `now` nanoseconds after the limiter was
    /// made, under the limit `max`: stamps that no longer count are dropped;
    /// the request is admitted, and stamped, exactly when fewer than `max`
    /// remain. Other clients' histories are untouched.
    pub fn check_limit_at(&mut self, key: &str, max: usize, now: u128) -> (allowed: bool)
        ensures
            allowed == (recent(old(self).history(key@), now).len() < max),
            final(self).history(key@) == (if allowed {
                recent(old(self).history(key@), now).push(now)
            } else {
                recent(old(self).history(key@), now)
            }),
            forall|k: Seq<char>| k != key@ ==> #[trigger] final(self).history(k) == old(self).history(k),
            final(self).limit() == old(self).limit(),
    {
        let ghost s0 = self.requests@;
        let mut idx: usize = 0;
        let mut found = false;
        while idx < self.requests.len()
            invariant_except_break
                idx <= self.requests.len(),
                self.requests@ == s0,
                !found,
                forall|j: int| 0 <= j < idx ==> s0[j].0@ != key@,
            ensures
                self.requests@ == s0,
                found ==> first_with(s0, key@, idx as int),
                !found ==> idx == s0.len() && forall|j: int| 0 <= j < s0.len() ==> s0[j].0@ != key@,
            decreases self.requests.len() - idx,
        {
            let k = String::from_str(key);
            if self.requests[idx].0 == k {
                found = true;
                break;
            }
            idx = idx + 1;
        }
        if !found {
            let ghost before = self.requests@;
            let e = (String::from_str(key), Vec::new());
            self.requests.push(e);
            proof {
                assert forall|k: Seq<char>| #[trigger] history_of(self.requests@, k) == (if k == key@ {
                    Seq::<u128>::empty()
                } else {
                    history_of(before, k)
                }) by {
                    lemma_history_push(before, key@, e, k);
                }
                lemma_history_absent(before, key@);
                assert(first_with(self.requests@, key@, idx as int));
            }
        }
        let ghost s1 = self.requests@;
        proof {
            lemma_history_first(s1, key@, idx as int);
        }
        let mut kept: Vec<u128> = Vec::new();
        let mut i: usize = 0;
        let n = self.requests[idx].1.len();
        while i < n
            invariant
                idx < self.requests.len(),
                self.requests@ == s1,
                n == s1[idx as int].1@.len(),
                i <= n,
                kept@ == recent(s1[idx as int].1@.take(i as int), now),
            decreases n - i,
        {
            let t = self.requests[idx].1[i];
            proof {
                assert(s1[idx as int].1@.take(i + 1).drop_last() == s1[idx as int].1@.take(i as int));
            }
            if (if now >= t { now - t } else { 0 }) < WINDOW_NANOS {
                kept.push(t);
            }
            i = i + 1;
        }
        proof {
            assert(s1[idx as int].1@.take(n as int) == s1[idx as int].1@);
        }
        let allowed = kept.len() < max;
        if allowed {
            kept.push(now);
        }
        let e = (String::from_str(key), kept);
        let ghost kept_view = e.1@;
        self.requests.set(idx, e);
        proof {
            assert forall|k: Seq<char>| #[trigger] history_of(self.requests@, k) == (if k == key@ {
                kept_view
            } else {
                history_of(s1, k)
            }) by {
                lemma_history_update(s1, key@, idx as int, e, k);
            }
            if !found {
                assert forall|k: Seq<char>| k != key@ implies #[trigger] history_of(s1, k) == history_of(s0, k) by {
                    lemma_history_push(s0, key@, s1[s1.len() - 1], k);
                    assert(s1 == s0.push(s1[s1.len() - 1]));
                }
                lemma_history_absent(s0, key@);
            } else {
                lemma_history_first(s0, key@, idx as int);
            }
        }
        allowed
    }

    /// Checks a request of `key` against a given limit, at the current time.
    pub fn check_limit(&mut self, key: &str, max: usize) -> (allowed: bool)
        ensures
            exists|now: u128|
                #![trigger recent(old(self).history(key@), now)]
                {
                    &&& allowed == (recent(old(self).history(key@), now).len() < max)
                    &&& final(self).history(key@) == (if allowed {
                        recent(old(self).history(key@), now).push(now)
                    } else {
                        recent(old(self).history(key@), now)
                    })
                },
            forall|k: Seq<char>| k != key@ ==> #[trigger] final(self).history(k) == old(self).history(k),
            final(self).limit() == old(self).limit(),
    {
        let d = clock_elapsed(&self.origin);
        let now = duration_nanos(&d);
        let r = self.check_limit_at(key, max, now);
        r
    }

    /// Checks a request of `key` against the limiter's own limit.
    pub fn check(&mut self, key: &str) -> (allowed: bool)
        ensures
            exists|now: u128|
                #![trigger recent(old(self).history(key@), now)]
                {
                    &&& allowed == (recent(old(self).history(key@), now).len() < old(self).limit())
                    &&& final(self).history(key@) == (if allowed {
                        recent(old(self).history(key@), now).push(now)
                    } else {
                        recent(old(self).history(key@), now)
                    })
                },
            forall|k: Seq<char>| k != key@ ==> #[trigger] final(self).history(k) == old(self).history(k),
            final(self).limit() == old(self).limit(),
    {
        let max = self.max_per_minute;
        self.check_limit(key, max)
    }
}

} // verus!
