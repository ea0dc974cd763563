//! Resilient call layer: classification of external-call failures and the
//! bounded exponential backoff with jitter between attempts.
use rand::Rng;
use vstd::prelude::*;

use crate::text::{decimal, push_decimal};

verus! {

/// Additional attempts after the first one.
pub const MAX_RETRIES: u32 = 3;

/// Shortest wait between two attempts, in milliseconds.
pub const MIN_DELAY_MS: u64 = 100;

/// A failed external call, classified.
#[derive(Clone, Debug)]
pub enum ApiError {
    /// Timeout, connection failure or upstream 5xx: worth another attempt.
    Retryable(String),
    /// Any other failure: surfaced at once.
    NonRetryable(String),
}

impl ApiError {
    pub open spec fn msg(&self) -> Seq<char> {
        match self {
            ApiError::Retryable(m) => m@,
            ApiError::NonRetryable(m) => m@,
        }
    }

    /// The human-readable message.
    pub fn message(&self) -> (r: String)
        ensures
            r@ == self.msg(),
    {
        match self {
            ApiError::Retryable(m) => m.clone(),
            ApiError::NonRetryable(m) => m.clone(),
        }
    }
}

fn prefixed(prefix: &str, a: &str, sep: &str, b: &str) -> (r: String)
    ensures
        r@ == prefix@ + a@ + sep@ + b@,
{
    let mut s = prefix.to_owned();
    s.append(a);
    s.append(sep);
    s.append(b);
    s
}

/// Whether an HTTP status code is a server error (5xx).
pub open spec fn is_server_error(code: u16) -> bool {
    500 <= code <= 599
}

/// Classifies a transport failure: timeouts and connection failures are
/// retryable, anything else is not.
pub fn classify_transport_error(is_timeout: bool, is_connect: bool, detail: &str) -> (r: ApiError)
    ensures
        (is_timeout || is_connect) <==> r is Retryable,
        (is_timeout || is_connect) ==> r.msg() == "网络错误: "@ + detail@,
        !(is_timeout || is_connect) ==> r.msg() == "请求失败: "@ + detail@,
{
    if is_timeout || is_connect {
        let mut m = "网络错误: ".to_owned();
        m.append(detail);
        ApiError::Retryable(m)
    } else {
        let mut m = "请求失败: ".to_owned();
        m.append(detail);
        ApiError::NonRetryable(m)
    }
}

/// Classifies an unsuccessful HTTP response: 5xx is retryable, any other
/// status is permanent. `status_text` is the status as displayed.
pub fn classify_http_status(code: u16, status_text: &str, body: &str) -> (r: ApiError)
    ensures
        r.msg() == "API 错误 "@ + status_text@ + ": "@ + body@,
        is_server_error(code) <==> r is Retryable,
{
    let m = prefixed("API 错误 ", status_text, ": ", body);
    if code >= 500 && code <= 599 {
        ApiError::Retryable(m)
    } else {
        ApiError::NonRetryable(m)
    }
}

/// Base wait before retry number `attempt + 1`: 1 s, 2 s, then 4 s.
pub open spec fn base_delay(attempt: nat) -> nat {
    if attempt == 0 {
        1000
    } else if attempt == 1 {
        2000
    } else {
        4000
    }
}

/// Half-width of the jitter window: a tenth of the base wait.
pub open spec fn jitter_range(attempt: nat) -> nat {
    base_delay(attempt) / 10
}

/// The wait for a jitter draw `draw` taken from `0..=2 * jitter_range`.
pub open spec fn delay_for(attempt: nat, draw: nat) -> nat {
    let d = base_delay(attempt) + draw - jitter_range(attempt);
    if d < MIN_DELAY_MS { MIN_DELAY_MS as nat } else { d as nat }
}

/// The wait lies within ten percent of the base wait, and is at least the floor.
pub open spec fn delay_in_bounds(attempt: nat, delay: nat) -> bool {
    &&& base_delay(attempt) - jitter_range(attempt) <= delay <= base_delay(attempt) + jitter_range(attempt)
    &&& delay >= MIN_DELAY_MS
}

fn base_delay_ms(attempt: u32) -> (r: u64)
    ensures
        r == base_delay(attempt as nat),
{
    if attempt == 0 {
        1000
    } else if attempt == 1 {
        2000
    } else {
        4000
    }
}

/// Relies on `rand::rng` and `Rng::random_range` over `0..=max`: the draw
/// lies in that range.
#[verifier::external_body]
fn random_jitter(max: u64) -> (r: u64)
    ensures
        r <= max,
{
    rand::rng().random_range(0..=max)
}

/// The wait before retry number `attempt + 1` for a given jitter draw.
pub fn backoff_delay_with(attempt: u32, draw: u64) -> (r: u64)
    requires
        draw <= 2 * jitter_range(attempt as nat),
    ensures
        r == delay_for(attempt as nat, draw as nat),
        delay_in_bounds(attempt as nat, r as nat),
{
    let base = base_delay_ms(attempt);
    let range = base / 10;
    let d = base + draw - range;
    if d < MIN_DELAY_MS { MIN_DELAY_MS } else { d }
}

/// The wait before retry number `attempt + 1`, with a uniform jitter draw.
pub fn backoff_delay(attempt: u32) -> (r: u64)
    ensures
        delay_in_bounds(attempt as nat, r as nat),
{
    let range = base_delay_ms(attempt) / 10;
    let draw = random_jitter(2 * range);
    backoff_delay_with(attempt, draw)
}

/// What to do after an attempt.
#[derive(Debug)]
pub enum RetryStep<T> {
    /// Stop with this result.
    Done(Result<T, String>),
    /// Wait this many milliseconds, then make the next attempt.
    Wait(u64),
}

/// The message of a retryable failure once the retries are used up.
pub open spec fn exhausted_message(msg: Seq<char>, max_retries: u32) -> Seq<char> {
    msg + " (已重试 "@ + decimal(max_retries as nat) + " 次)"@
}

/// Decision after attempt number `attempt` (counting from zero) ended with
/// `outcome`, for a jitter draw `draw`: success and permanent failures stop
/// at once, a retryable failure waits unless the retries are used up.
pub fn after_attempt_with<T>(attempt: u32, max_retries: u32, outcome: Result<T, ApiError>, draw: u64) -> (r: RetryStep<T>)
    requires
        attempt <= max_retries,
        draw <= 2 * jitter_range(attempt as nat),
    ensures
        match outcome {
            Ok(v) => r == RetryStep::<T>::Done(Ok(v)),
            Err(ApiError::NonRetryable(m)) => r matches RetryStep::Done(Err(e)) && e@ == m@,
            Err(ApiError::Retryable(m)) => if attempt == max_retries {
                r matches RetryStep::Done(Err(e)) && e@ == exhausted_message(m@, max_retries)
            } else {
                r == RetryStep::<T>::Wait(delay_for(attempt as nat, draw as nat) as u64)
            },
        },
{
    match outcome {
        Ok(v) => RetryStep::Done(Ok(v)),
        Err(ApiError::NonRetryable(m)) => RetryStep::Done(Err(m)),
        Err(ApiError::Retryable(m)) => {
            if attempt == max_retries {
                let mut e = m;
                e.append(" (已重试 ");
                push_decimal(&mut e, max_retries as u64);
                e.append(" 次)");
                RetryStep::Done(Err(e))
            } else {
                RetryStep::Wait(backoff_delay_with(attempt, draw))
            }
        },
    }
}

/// Decision after attempt number `attempt` ended with `outcome`; a wait
/// draws its jitter uniformly.
pub fn after_attempt<T>(attempt: u32, max_retries: u32, outcome: Result<T, ApiError>) -> (r: RetryStep<T>)
    requires
        attempt <= max_retries,
    ensures
        match outcome {
            Ok(v) => r == RetryStep::<T>::Done(Ok(v)),
            Err(ApiError::NonRetryable(m)) => r matches RetryStep::Done(Err(e)) && e@ == m@,
            Err(ApiError::Retryable(m)) => if attempt == max_retries {
                r matches RetryStep::Done(Err(e)) && e@ == exhausted_message(m@, max_retries)
            } else {
                r matches RetryStep::Wait(d) && delay_in_bounds(attempt as nat, d as nat)
            },
        },
{
    let range = base_delay_ms(attempt) / 10;
    let draw = random_jitter(2 * range);
    after_attempt_with(attempt, max_retries, outcome, draw)
}

} // verus!
