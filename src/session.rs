//! The decisions of the shared HTTP session: which responses are retried, how
//! long to wait before the next attempt, when to give up, and which sources are
//! throttled.
use vstd::prelude::*;
use rand::Rng;
use crate::numbers::{decimal, decimal_of, parse_u64, parse_unsigned};
use crate::text::{owned, push_str_chars};
use crate::types::{Config, RustFinderError};

verus! {

/// Relies on `rand::random::<u64>`: some `u64`; nothing is known of which.
#[verifier::external_body]
pub(crate) fn random_u64() -> u64 {
    rand::random::<u64>()
}

/// Relies on rand's `Rng::gen_range` over `thread_rng()`: a value in
/// `[0, n)`. It panics on an empty range, which `requires` leaves out.
#[verifier::external_body]
pub(crate) fn random_below(n: usize) -> (r: usize)
    requires
        n > 0,
    ensures
        r < n,
{
    rand::thread_rng().gen_range(0..n)
}

/// How a response status is handled.
#[derive(Clone, Copy, Debug, PartialEq, Eq, Structural)]
pub enum StatusClass {
    /// 2xx: the response is handed back.
    Success,
    /// 429 or 5xx: the request is tried again.
    Retryable,
    /// Anything else: the request fails at once.
    Fatal,
}

/// The class of an HTTP status code.
pub open spec fn status_class(code: u16) -> StatusClass {
    if 200 <= code && code < 300 {
        StatusClass::Success
    } else if code == 429 || (500 <= code && code < 600) {
        StatusClass::Retryable
    } else {
        StatusClass::Fatal
    }
}

/// Computes the class of an HTTP status code.
pub fn classify_status(code: u16) -> (r: StatusClass)
    ensures
        r == status_class(code),
{
    if 200 <= code && code < 300 {
        StatusClass::Success
    } else if code == 429 || (500 <= code && code < 600) {
        StatusClass::Retryable
    } else {
        StatusClass::Fatal
    }
}

/// `2^n`.
pub open spec fn pow2(n: nat) -> nat
    decreases n,
{
    if n == 0 {
        1
    } else {
        2 * pow2((n - 1) as nat)
    }
}

/// `n`, or `u64::MAX` where `n` does not fit.
pub open spec fn cap(n: nat) -> u64 {
    if n > u64::MAX { u64::MAX } else { n as u64 }
}

/// The jitter drawn from `random`: a value in `[0, base / 4)`, or 0 where
/// that range is empty.
pub open spec fn jitter_of(base: u64, random: u64) -> nat {
    if base / 4 == 0 { 0 } else { (random % (base / 4)) as nat }
}

/// The wait after failed attempt `attempt` (counted from 1), in milliseconds:
/// `base * 2^(attempt - 1)` plus the jitter, capped at `u64::MAX`.
pub open spec fn backoff_delay(base: u64, attempt: nat, random: u64) -> u64 {
    cap((base * pow2((attempt - 1) as nat) + jitter_of(base, random)) as nat)
}

/// Computes `backoff_delay(base, attempt, random)`.
pub fn backoff_delay_ms(base: u64, attempt: u32, random: u64) -> (r: u64)
    requires
        attempt >= 1,
    ensures
        r == backoff_delay(base, attempt as nat, random),
{
    let mut v: u64 = base;
    let mut j: u32 = 0;
    assert(pow2(0) == 1);
    assert(base * pow2(0) == base);
    while j < attempt - 1
        invariant
            j <= attempt - 1,
            v == cap((base * pow2(j as nat)) as nat),
        decreases attempt - 1 - j,
    {
        proof {
            assert(pow2((j + 1) as nat) == 2 * pow2(j as nat));
            assert(base * pow2((j + 1) as nat) == 2 * (base * pow2(j as nat))) by (nonlinear_arith)
                requires
                    pow2((j + 1) as nat) == 2 * pow2(j as nat),
            ;
        }
        if v > u64::MAX / 2 {
            v = u64::MAX;
        } else {
            v = v * 2;
        }
        j += 1;
    }
    let jitter: u64 = if base / 4 == 0 { 0 } else { random % (base / 4) };
    if v > u64::MAX - jitter {
        u64::MAX
    } else {
        v + jitter
    }
}

/// The retry budget of a session.
#[derive(Clone, Copy, Debug)]
pub struct RetryPolicy {
    /// Largest number of retries after the first attempt.
    pub max_retries: u32,
    /// Base delay of the backoff, in milliseconds.
    pub base_delay_ms: u64,
}

/// What one attempt of a request came to.
#[derive(Clone, Debug)]
pub enum AttemptOutcome {
    /// A response arrived, with its status and its `Retry-After` header, if any.
    Response { status: u16, retry_after: Option<String> },
    /// The transport failed.
    NetworkFailure { message: String },
}

/// What the session does after an attempt.
#[derive(Clone, Debug)]
pub enum RetryStep {
    /// Hand the response to the caller.
    Deliver,
    /// Wait this long, then try again.
    Wait { delay_ms: u64 },
    /// Give up with this error.
    Fail(RustFinderError),
}

/// The wait before retrying a response: the `Retry-After` seconds where the
/// header holds a number, else the backoff.
pub open spec fn response_delay(
    policy: RetryPolicy,
    attempt: nat,
    retry_after: Option<String>,
    random: u64,
) -> u64 {
    match retry_after {
        Some(h) => match parse_unsigned(h@, u64::MAX as nat) {
            Some(secs) => cap(secs * 1000),
            None => backoff_delay(policy.base_delay_ms, attempt, random),
        },
        None => backoff_delay(policy.base_delay_ms, attempt, random),
    }
}

/// `step` is what follows attempt `attempt` (counted from 1) of a request of
/// `source`, ending in `outcome`, with `random` as the jitter draw.
pub open spec fn retry_step_is(
    policy: RetryPolicy,
    source: Seq<char>,
    attempt: nat,
    outcome: AttemptOutcome,
    random: u64,
    step: RetryStep,
) -> bool {
    match outcome {
        AttemptOutcome::Response { status, retry_after } => match status_class(status) {
            StatusClass::Success => step is Deliver,
            StatusClass::Fatal => step is Fail && step->Fail_0 is NetworkError
                && step->Fail_0->NetworkError_0@ == "HTTP status "@ + decimal_of(status as nat),
            StatusClass::Retryable => if attempt > policy.max_retries {
                &&& step is Fail
                &&& step->Fail_0 is RateLimitExceeded
                &&& step->Fail_0->RateLimitExceeded_source_name@ == source
                &&& step->Fail_0->RateLimitExceeded_message@ == "retries exhausted, last HTTP status "@
                    + decimal_of(status as nat)
            } else {
                step == (RetryStep::Wait {
                    delay_ms: response_delay(policy, attempt, retry_after, random),
                })
            },
        },
        AttemptOutcome::NetworkFailure { message } => if attempt > policy.max_retries {
            step is Fail && step->Fail_0 is NetworkError
                && step->Fail_0->NetworkError_0@ == "retries exhausted: "@ + message@
        } else {
            step == (RetryStep::Wait {
                delay_ms: backoff_delay(policy.base_delay_ms, attempt, random),
            })
        },
    }
}

fn text_then_number(text: &str, n: u64) -> (r: String)
    ensures
        r@ == text@ + decimal_of(n as nat),
{
    let mut s = String::new();
    push_str_chars(&mut s, text);
    let d = decimal(n);
    push_str_chars(&mut s, d.as_str());
    assert(s@ =~= text@ + decimal_of(n as nat));
    s
}

/// Decides what follows attempt `attempt` of a request of `source`, given its
/// outcome and a random draw for the jitter.
pub fn retry_step(
    policy: &RetryPolicy,
    source: &str,
    attempt: u32,
    outcome: &AttemptOutcome,
    random: u64,
) -> (r: RetryStep)
    requires
        attempt >= 1,
    ensures
        retry_step_is(*policy, source@, attempt as nat, *outcome, random, r),
{
    match outcome {
        AttemptOutcome::Response { status, retry_after } => match classify_status(*status) {
            StatusClass::Success => RetryStep::Deliver,
            StatusClass::Fatal => RetryStep::Fail(
                RustFinderError::NetworkError(text_then_number("HTTP status ", *status as u64)),
            ),
            StatusClass::Retryable => {
                if attempt > policy.max_retries {
                    let mut name = String::new();
                    push_str_chars(&mut name, source);
                    assert(name@ =~= source@);
                    RetryStep::Fail(
                        RustFinderError::RateLimitExceeded {
                            source_name: name,
                            message: text_then_number(
                                "retries exhausted, last HTTP status ",
                                *status as u64,
                            ),
                        },
                    )
                } else {
                    let header_secs = match retry_after {
                        Some(h) => parse_u64(h.as_str()),
                        None => None,
                    };
                    let delay_ms = match header_secs {
                        Some(secs) => if secs > u64::MAX / 1000 {
                            u64::MAX
                        } else {
                            secs * 1000
                        },
                        None => backoff_delay_ms(policy.base_delay_ms, attempt, random),
                    };
                    RetryStep::Wait { delay_ms }
                }
            },
        },
        AttemptOutcome::NetworkFailure { message } => {
            if attempt > policy.max_retries {
                let mut m = String::new();
                push_str_chars(&mut m, "retries exhausted: ");
                push_str_chars(&mut m, message.as_str());
                RetryStep::Fail(RustFinderError::NetworkError(m))
            } else {
                RetryStep::Wait { delay_ms: backoff_delay_ms(policy.base_delay_ms, attempt, random) }
            }
        },
    }
}

/// Decides what follows an attempt, drawing the jitter at random.
pub fn next_retry_step(
    policy: &RetryPolicy,
    source: &str,
    attempt: u32,
    outcome: &AttemptOutcome,
) -> (r: RetryStep)
    requires
        attempt >= 1,
    ensures
        exists|random: u64| retry_step_is(*policy, source@, attempt as nat, *outcome, random, r),
{
    let random: u64 = random_u64();
    retry_step(policy, source, attempt, outcome, random)
}

/// The throttled sources of a rate-limit list, in order, with their rates.
pub open spec fn limited_sources(rl: Seq<(String, Option<u32>)>) -> Seq<(Seq<char>, u32)>
    decreases rl.len(),
{
    if rl.len() == 0 {
        Seq::empty()
    } else {
        let p = limited_sources(rl.drop_last());
        match rl.last().1 {
            Some(n) => p.push((rl.last().0@, n)),
            None => p,
        }
    }
}

/// The values of a rate table.
pub open spec fn table_view(t: Seq<(String, u32)>) -> Seq<(Seq<char>, u32)> {
    t.map_values(|p: (String, u32)| (p.0@, p.1))
}

/// The table of throttled sources and their rates (requests per second) that a
/// session is built with. A rate of zero is a configuration error.
pub fn rate_limit_table(config: &Config) -> (r: Result<Vec<(String, u32)>, RustFinderError>)
    ensures
        r is Ok <==> forall|i: int|
            0 <= i < config.rate_limits@.len() ==> #[trigger] config.rate_limits@[i].1 != Some(
                0u32,
            ),
        r is Ok ==> table_view(r->Ok_0@) == limited_sources(config.rate_limits@),
        r is Err ==> r->Err_0 is ConfigError,
{
    let rl = &config.rate_limits;
    let mut out: Vec<(String, u32)> = Vec::new();
    let mut i: usize = 0;
    while i < rl.len()
        invariant
            i <= rl@.len(),
            rl@ == config.rate_limits@,
            forall|k: int| 0 <= k < i ==> #[trigger] rl@[k].1 != Some(0u32),
            table_view(out@) == limited_sources(rl@.take(i as int)),
        decreases rl@.len() - i,
    {
        assert(rl@.take(i + 1).drop_last() =~= rl@.take(i as int));
        match rl[i].1 {
            Some(n) => {
                if n == 0 {
                    return Err(RustFinderError::ConfigError(owned("a rate limit must be positive")));
                }
                out.push((rl[i].0.clone(), n));
                assert(table_view(out@) =~= limited_sources(rl@.take(i as int)).push(
                    (rl@[i as int].0@, n),
                ));
            },
            None => {},
        }
        i += 1;
    }
    assert(rl@.take(i as int) =~= rl@);
    Ok(out)
}

/// The number of user agents a session picks from.
pub const USER_AGENT_COUNT: usize = 12;

/// The text of the user agent numbered `i`.
pub open spec fn user_agent_text(i: int) -> Seq<char> {
    if i == 0 {
        "Mozilla/5.0 (Windows NT 10.0; Win64; x64) AppleWebKit/537.36 (KHTML, like Gecko) Chrome/122.0.0.0 Safari/537.36"@
    } else if i == 1 {
        "Mozilla/5.0 (Windows NT 10.0; Win64; x64) AppleWebKit/537.36 (KHTML, like Gecko) Chrome/121.0.0.0 Safari/537.36"@
    } else if i == 2 {
        "Mozilla/5.0 (Macintosh; Intel Mac OS X 10_15_7) AppleWebKit/537.36 (KHTML, like Gecko) Chrome/122.0.0.0 Safari/537.36"@
    } else if i == 3 {
        "Mozilla/5.0 (Macintosh; Intel Mac OS X 10_15_7) AppleWebKit/537.36 (KHTML, like Gecko) Chrome/121.0.0.0 Safari/537.36"@
    } else if i == 4 {
        "Mozilla/5.0 (Windows NT 10.0; Win64; x64; rv:122.0) Gecko/20100101 Firefox/122.0"@
    } else if i == 5 {
        "Mozilla/5.0 (Windows NT 10.0; Win64; x64; rv:121.0) Gecko/20100101 Firefox/121.0"@
    } else if i == 6 {
        "Mozilla/5.0 (X11; Linux x86_64; rv:122.0) Gecko/20100101 Firefox/122.0"@
    } else if i == 7 {
        "Mozilla/5.0 (X11; Ubuntu; Linux x86_64; rv:122.0) Gecko/20100101 Firefox/122.0"@
    } else if i == 8 {
        "Mozilla/5.0 (Windows NT 10.0; Win64; x64) AppleWebKit/537.36 (KHTML, like Gecko) Chrome/122.0.0.0 Safari/537.36 Edg/122.0.0.0"@
    } else if i == 9 {
        "Mozilla/5.0 (Windows NT 10.0; Win64; x64) AppleWebKit/537.36 (KHTML, like Gecko) Chrome/121.0.0.0 Safari/537.36 Edg/121.0.0.0"@
    } else if i == 10 {
        "Mozilla/5.0 (Macintosh; Intel Mac OS X 14_2_1) AppleWebKit/605.1.15 (KHTML, like Gecko) Version/17.2 Safari/605.1.15"@
    } else {
        "Mozilla/5.0 (Macintosh; Intel Mac OS X 13_6_4) AppleWebKit/605.1.15 (KHTML, like Gecko) Version/17.2 Safari/605.1.15"@
    }
}

/// The user agent numbered `i`.
pub fn user_agent(i: usize) -> (r: &'static str)
    requires
        i < USER_AGENT_COUNT,
    ensures
        r@ == user_agent_text(i as int),
{
    if i == 0 {
        "Mozilla/5.0 (Windows NT 10.0; Win64; x64) AppleWebKit/537.36 (KHTML, like Gecko) Chrome/122.0.0.0 Safari/537.36"
    } else if i == 1 {
        "Mozilla/5.0 (Windows NT 10.0; Win64; x64) AppleWebKit/537.36 (KHTML, like Gecko) Chrome/121.0.0.0 Safari/537.36"
    } else if i == 2 {
        "Mozilla/5.0 (Macintosh; Intel Mac OS X 10_15_7) AppleWebKit/537.36 (KHTML, like Gecko) Chrome/122.0.0.0 Safari/537.36"
    } else if i == 3 {
        "Mozilla/5.0 (Macintosh; Intel Mac OS X 10_15_7) AppleWebKit/537.36 (KHTML, like Gecko) Chrome/121.0.0.0 Safari/537.36"
    } else if i == 4 {
        "Mozilla/5.0 (Windows NT 10.0; Win64; x64; rv:122.0) Gecko/20100101 Firefox/122.0"
    } else if i == 5 {
        "Mozilla/5.0 (Windows NT 10.0; Win64; x64; rv:121.0) Gecko/20100101 Firefox/121.0"
    } else if i == 6 {
        "Mozilla/5.0 (X11; Linux x86_64; rv:122.0) Gecko/20100101 Firefox/122.0"
    } else if i == 7 {
        "Mozilla/5.0 (X11; Ubuntu; Linux x86_64; rv:122.0) Gecko/20100101 Firefox/122.0"
    } else if i == 8 {
        "Mozilla/5.0 (Windows NT 10.0; Win64; x64) AppleWebKit/537.36 (KHTML, like Gecko) Chrome/122.0.0.0 Safari/537.36 Edg/122.0.0.0"
    } else if i == 9 {
        "Mozilla/5.0 (Windows NT 10.0; Win64; x64) AppleWebKit/537.36 (KHTML, like Gecko) Chrome/121.0.0.0 Safari/537.36 Edg/121.0.0.0"
    } else if i == 10 {
        "Mozilla/5.0 (Macintosh; Intel Mac OS X 14_2_1) AppleWebKit/605.1.15 (KHTML, like Gecko) Version/17.2 Safari/605.1.15"
    } else {
        "Mozilla/5.0 (Macintosh; Intel Mac OS X 13_6_4) AppleWebKit/605.1.15 (KHTML, like Gecko) Version/17.2 Safari/605.1.15"
    }
}

/// One of the user agents, picked at random.
pub fn random_user_agent() -> (r: String)
    ensures
        exists|i: int| 0 <= i < USER_AGENT_COUNT && r@ == user_agent_text(i),
{
    let i = random_below(USER_AGENT_COUNT);
    owned(user_agent(i))
}

} // verus!
