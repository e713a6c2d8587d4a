//! The decisions of the HTTP fetcher: how long to wait before a request to
//! a source, and what to do with each response.
use vstd::prelude::*;
use crate::text::{decimal, decimal_chars, join2, same_text, string_of};
use crate::types::Error;

verus! {

/// The last request time of each source key, and the default spacing.
/// Times are milliseconds on a monotonic clock.
pub struct RateLimiter {
    last_request: Vec<(String, u64)>,
    default_delay_ms: u64,
}

/// The time recorded for `key` in `entries`, looking from `i` on.
pub open spec fn recorded_from(entries: Seq<(String, u64)>, key: Seq<char>, i: int) -> Option<u64>
    decreases entries.len() - i,
{
    if i < 0 || i >= entries.len() {
        None
    } else if entries[i].0@ == key {
        Some(entries[i].1)
    } else {
        recorded_from(entries, key, i + 1)
    }
}

/// How long to wait, from `now`, so that at least `delay` has passed since `last`.
pub open spec fn wait_needed(last: Option<u64>, now: u64, delay: u64) -> nat {
    match last {
        None => 0,
        Some(t) => {
            let elapsed: int = if now >= t { now - t } else { 0 };
            if elapsed < delay { (delay - elapsed) as nat } else { 0 }
        },
    }
}

impl RateLimiter {
    /// The time recorded for `key`.
    pub closed spec fn last_of(&self, key: Seq<char>) -> Option<u64> {
        recorded_from(self.last_request@, key, 0)
    }

    pub closed spec fn delay(&self) -> u64 {
        self.default_delay_ms
    }

    pub fn new(delay_ms: u64) -> (r: RateLimiter)
        ensures
            r.delay() == delay_ms,
            forall|k: Seq<char>| r.last_of(k) is None,
    {
        RateLimiter { last_request: Vec::new(), default_delay_ms: delay_ms }
    }

    pub fn default_delay_ms(&self) -> (r: u64)
        ensures
            r == self.delay(),
    {
        self.default_delay_ms
    }

    fn find(&self, key: &str) -> (r: Option<usize>)
        ensures
            match recorded_from(self.last_request@, key@, 0) {
                None => r is None,
                Some(t) => r matches Some(i) && i < self.last_request@.len()
                    && self.last_request@[i as int].1 == t && self.last_request@[i as int].0@ == key@
                    && forall|j: int| 0 <= j < i ==> self.last_request@[j].0@ != key@,
            },
    {
        let mut i: usize = 0;
        while i < self.last_request.len()
            invariant
                i <= self.last_request@.len(),
                recorded_from(self.last_request@, key@, 0) == recorded_from(self.last_request@, key@, i as int),
                forall|j: int| 0 <= j < i ==> self.last_request@[j].0@ != key@,
            decreases self.last_request@.len() - i,
        {
            if same_text(self.last_request[i].0.as_str(), key) {
                return Some(i);
            }
            i = i + 1;
        }
        None
    }

    /// How long a request to `key` at `now` waits with the default spacing.
    pub fn wait_time(&self, key: &str, now: u64) -> (r: u64)
        ensures
            r == wait_needed(self.last_of(key@), now, self.delay()),
    {
        self.wait_time_custom(key, now, self.default_delay_ms)
    }

    /// How long a request to `key` at `now` waits with the spacing `delay`.
    pub fn wait_time_custom(&self, key: &str, now: u64, delay: u64) -> (r: u64)
        ensures
            r == wait_needed(self.last_of(key@), now, delay),
    {
        match self.find(key) {
            None => 0,
            Some(i) => {
                let t = self.last_request[i].1;
                let elapsed = if now >= t { now - t } else { 0 };
                if elapsed < delay {
                    delay - elapsed
                } else {
                    0
                }
            },
        }
    }

    /// Records that a request to `key` was issued at `at`.
    pub fn record(&mut self, key: &str, at: u64)
        ensures
            final(self).last_of(key@) == Some(at),
            final(self).delay() == old(self).delay(),
            forall|k: Seq<char>| k != key@ ==> final(self).last_of(k) == old(self).last_of(k),
    {
        let ghost before = self.last_request@;
        match self.find(key) {
            Some(i) => {
                self.last_request.set(i, (String::from_str(key), at));
                proof {
                    lemma_first_key(before, self.last_request@, i as int, key@, 0);
                    lemma_recorded_update(before, self.last_request@, i as int, key@);
                }
            },
            None => {
                self.last_request.push((String::from_str(key), at));
                proof {
                    lemma_recorded_push(before, self.last_request@, key@);
                }
            },
        }
    }
}

proof fn lemma_recorded_update(a: Seq<(String, u64)>, b: Seq<(String, u64)>, i: int, key: Seq<char>)
    requires
        0 <= i < a.len(),
        a.len() == b.len(),
        a[i].0@ == key,
        b[i].0@ == key,
        forall|j: int| 0 <= j < a.len() && j != i ==> b[j] == a[j],
        recorded_from(a, key, 0) == Some(a[i].1),
    ensures
        forall|k: Seq<char>| k != key ==> recorded_from(b, k, 0) == recorded_from(a, k, 0),
{
    assert forall|k: Seq<char>| k != key implies recorded_from(b, k, 0) == recorded_from(a, k, 0) by {
        lemma_recorded_same_except(a, b, i, k, 0);
    }
}

proof fn lemma_recorded_same_except(a: Seq<(String, u64)>, b: Seq<(String, u64)>, i: int, k: Seq<char>, from: int)
    requires
        0 <= i < a.len(),
        a.len() == b.len(),
        a[i].0@ != k,
        b[i].0@ != k,
        forall|j: int| 0 <= j < a.len() && j != i ==> b[j] == a[j],
        0 <= from,
    ensures
        recorded_from(b, k, from) == recorded_from(a, k, from),
    decreases a.len() - from,
{
    if from < a.len() {
        lemma_recorded_same_except(a, b, i, k, from + 1);
    }
}

proof fn lemma_first_key(a: Seq<(String, u64)>, b: Seq<(String, u64)>, i: int, key: Seq<char>, from: int)
    requires
        0 <= i < a.len(),
        a.len() == b.len(),
        b[i].0@ == key,
        forall|j: int| 0 <= j < a.len() && j != i ==> b[j] == a[j],
        0 <= from <= i,
        recorded_from(a, key, from) == Some(a[i].1),
        forall|j: int| from <= j < i ==> a[j].0@ != key,
    ensures
        recorded_from(b, key, from) == Some(b[i].1),
    decreases i - from,
{
    if from < i {
        lemma_first_key(a, b, i, key, from + 1);
    }
}

proof fn lemma_recorded_push(a: Seq<(String, u64)>, b: Seq<(String, u64)>, key: Seq<char>)
    requires
        b.len() == a.len() + 1,
        forall|j: int| 0 <= j < a.len() ==> b[j] == a[j],
        b[a.len() as int].0@ == key,
        recorded_from(a, key, 0) is None,
    ensures
        recorded_from(b, key, 0) == Some(b[a.len() as int].1),
        forall|k: Seq<char>| k != key ==> recorded_from(b, k, 0) == recorded_from(a, k, 0),
{
    assert forall|k: Seq<char>| k != key implies recorded_from(b, k, 0) == recorded_from(a, k, 0) by {
        lemma_push_other(a, b, k, 0);
    }
    lemma_push_key(a, b, key, 0);
}

proof fn lemma_push_other(a: Seq<(String, u64)>, b: Seq<(String, u64)>, k: Seq<char>, from: int)
    requires
        b.len() == a.len() + 1,
        forall|j: int| 0 <= j < a.len() ==> b[j] == a[j],
        b[a.len() as int].0@ != k,
        0 <= from,
    ensures
        recorded_from(b, k, from) == recorded_from(a, k, from),
    decreases b.len() - from,
{
    if from < b.len() {
        lemma_push_other(a, b, k, from + 1);
    }
}

proof fn lemma_push_key(a: Seq<(String, u64)>, b: Seq<(String, u64)>, key: Seq<char>, from: int)
    requires
        b.len() == a.len() + 1,
        forall|j: int| 0 <= j < a.len() ==> b[j] == a[j],
        b[a.len() as int].0@ == key,
        0 <= from <= a.len(),
        recorded_from(a, key, from) is None,
    ensures
        recorded_from(b, key, from) == Some(b[a.len() as int].1),
    decreases a.len() - from,
{
    if from < a.len() {
        lemma_push_key(a, b, key, from + 1);
    }
}

/// After a wait of the length the limiter asks for, a request to a key
/// starts at least the spacing after the one recorded before it.
pub proof fn wait_spacing_law(last: u64, now: u64, delay: u64)
    requires
        now >= last,
    ensures
        now + wait_needed(Some(last), now, delay) >= last + delay,
{
}

/// What came back from one request.
#[derive(Debug, Clone, Copy, PartialEq, Eq, Structural)]
pub enum Attempt {
    /// A 2xx response.
    Success,
    /// Any other response, with its status and its `Retry-After` seconds if readable.
    Status { code: u16, retry_after: Option<u64> },
    /// No response: a transport failure.
    Transport,
}

/// What the fetcher does next.
#[derive(Debug, Clone, Copy, PartialEq, Eq, Structural)]
pub enum Decision {
    /// Hand the body to the caller.
    Deliver,
    /// Sleep this many seconds and send the request again.
    Retry { wait_secs: u64 },
    /// Give up: the rate limit budget is spent.
    RateLimited { retry_after: Option<u64> },
    /// Give up: the source answered with this status.
    HttpStatus { code: u16 },
    /// Give up: the transport kept failing.
    NetworkFailure,
}

pub open spec fn pow2(n: nat) -> nat
    decreases n,
{
    if n == 0 {
        1
    } else {
        2 * pow2((n - 1) as nat)
    }
}

/// The decision after `attempts` retries so far, with a budget of `max_retries`.
pub open spec fn decision(attempts: nat, max_retries: nat, outcome: Attempt) -> Decision {
    match outcome {
        Attempt::Success => Decision::Deliver,
        Attempt::Status { code, retry_after } => if code == 429 {
            if attempts < max_retries {
                Decision::Retry {
                    wait_secs: if pow2(attempts + 1) > u64::MAX { u64::MAX } else { pow2(attempts + 1) as u64 },
                }
            } else {
                Decision::RateLimited { retry_after }
            }
        } else {
            Decision::HttpStatus { code }
        },
        Attempt::Transport => if attempts < max_retries {
            Decision::Retry { wait_secs: 1 }
        } else {
            Decision::NetworkFailure
        },
    }
}

proof fn lemma_pow2_step(n: nat)
    ensures
        pow2(n + 1) == 2 * pow2(n),
        pow2(n) >= 1,
    decreases n,
{
    if n > 0 {
        lemma_pow2_step((n - 1) as nat);
    }
}

/// `2^n` seconds, held to the largest `u64`.
fn backoff_secs(n: u32) -> (r: u64)
    ensures
        r == if pow2(n as nat) > u64::MAX { u64::MAX } else { pow2(n as nat) as u64 },
{
    let mut r: u64 = 1;
    let mut i: u32 = 0;
    let mut saturated = false;
    while i < n
        invariant
            i <= n,
            saturated ==> pow2(i as nat) > u64::MAX && r == u64::MAX,
            !saturated ==> r == pow2(i as nat),
        decreases n - i,
    {
        proof {
            lemma_pow2_step(i as nat);
        }
        if !saturated {
            if r > u64::MAX / 2 {
                saturated = true;
                r = u64::MAX;
            } else {
                r = r * 2;
            }
        }
        i = i + 1;
    }
    r
}

/// What the fetcher does with `outcome` after `attempts` retries, with a
/// budget of `max_retries`: a 429 or a transport failure is retried while
/// the budget lasts, after `2^(attempts + 1)` seconds or one second.
pub fn decide(attempts: u32, max_retries: u32, outcome: Attempt) -> (r: Decision)
    ensures
        r == decision(attempts as nat, max_retries as nat, outcome),
{
    match outcome {
        Attempt::Success => Decision::Deliver,
        Attempt::Status { code, retry_after } => {
            if code == 429 {
                if attempts < max_retries {
                    Decision::Retry { wait_secs: backoff_secs(attempts + 1) }
                } else {
                    Decision::RateLimited { retry_after }
                }
            } else {
                Decision::HttpStatus { code }
            }
        },
        Attempt::Transport => {
            if attempts < max_retries {
                Decision::Retry { wait_secs: 1 }
            } else {
                Decision::NetworkFailure
            }
        },
    }
}

/// The number of requests a fetch makes when the responses are `outs`, from
/// `attempts` retries on, and its final decision if it reached one.
pub open spec fn run(max_retries: nat, attempts: nat, outs: Seq<Attempt>) -> (nat, Option<Decision>)
    decreases outs.len(),
{
    if outs.len() == 0 {
        (0, None)
    } else {
        let d = decision(attempts, max_retries, outs[0]);
        if d is Retry {
            let rest = run(max_retries, attempts + 1, outs.drop_first());
            (rest.0 + 1, rest.1)
        } else {
            (1, Some(d))
        }
    }
}

/// A fetch sends at most `max_retries + 1` requests whatever comes back, and
/// when every answer is a 429 with `Retry-After: k`, it gives up after
/// `max_retries + 1` requests with `k` in its error.
pub proof fn retry_budget_law(max_retries: nat, outs: Seq<Attempt>, k: u64)
    ensures
        run(max_retries, 0, outs).0 <= max_retries + 1,
        outs.len() > max_retries && (forall|i: int| 0 <= i < outs.len() ==> #[trigger] outs[i]
            == (Attempt::Status { code: 429, retry_after: Some(k) })) ==> run(max_retries, 0, outs)
            == (max_retries + 1, Some(Decision::RateLimited { retry_after: Some(k) })),
{
    lemma_run_bound(max_retries, 0, outs);
    if outs.len() > max_retries && (forall|i: int| 0 <= i < outs.len() ==> #[trigger] outs[i]
        == (Attempt::Status { code: 429, retry_after: Some(k) })) {
        lemma_run_429(max_retries, 0, outs, k);
    }
}

proof fn lemma_run_bound(max_retries: nat, attempts: nat, outs: Seq<Attempt>)
    requires
        attempts <= max_retries,
    ensures
        run(max_retries, attempts, outs).0 <= max_retries - attempts + 1,
    decreases outs.len(),
{
    if outs.len() > 0 {
        let d = decision(attempts, max_retries, outs[0]);
        if d is Retry {
            lemma_run_bound(max_retries, attempts + 1, outs.drop_first());
        }
    }
}

proof fn lemma_run_429(max_retries: nat, attempts: nat, outs: Seq<Attempt>, k: u64)
    requires
        attempts <= max_retries,
        outs.len() > max_retries - attempts,
        forall|i: int| 0 <= i < outs.len() ==> #[trigger] outs[i] == (Attempt::Status { code: 429, retry_after: Some(k) }),
    ensures
        run(max_retries, attempts, outs) == (
            (max_retries - attempts + 1) as nat,
            Some((Decision::RateLimited { retry_after: Some(k) })),
        ),
    decreases outs.len(),
{
    assert(outs[0] == (Attempt::Status { code: 429, retry_after: Some(k) }));
    if attempts < max_retries {
        let rest = outs.drop_first();
        assert forall|i: int| 0 <= i < rest.len() implies #[trigger] rest[i] == Attempt::Status {
            code: 429,
            retry_after: Some(k),
        } by {
            assert(rest[i] == outs[i + 1]);
        }
        lemma_run_429(max_retries, attempts + 1, rest, k);
    }
}

/// The error a source's failing status becomes: `HTTP <code>`.
pub fn http_status_error(source_id: &str, code: u16) -> (r: Error)
    ensures
        r matches Error::Source { src, message } && src@ == source_id@ && message@ == "HTTP "@
            + decimal(code as nat),
{
    let d = decimal_chars(code as u64);
    let n = string_of(d.as_slice());
    let m = join2("HTTP ", n.as_str());
    Error::Source { src: String::from_str(source_id), message: m }
}

} // verus!
