//! Errors of a model call, how they are classified, and when a call is retried.
use vstd::prelude::*;

use crate::category::{call_status, status_after_call};
use crate::reply::LlmResult;
use crate::text::append_str;

verus! {

/// An error of one model call.
#[derive(Debug)]
pub enum ApiError {
    /// The service refused the credentials; every further call would fail too.
    Unauthorized(String),
    /// A transient failure: the call may succeed when tried again.
    Retryable(String),
    /// A failure that trying again would not cure.
    NonRetryable(String),
}

/// The kinds of `ApiError`.
#[derive(Clone, Copy, Debug, PartialEq, Eq, Structural)]
pub enum ErrorKind {
    Unauthorized,
    Retryable,
    NonRetryable,
}

pub open spec fn kind_of(e: ApiError) -> ErrorKind {
    match e {
        ApiError::Unauthorized(_) => ErrorKind::Unauthorized,
        ApiError::Retryable(_) => ErrorKind::Retryable,
        ApiError::NonRetryable(_) => ErrorKind::NonRetryable,
    }
}

pub open spec fn message_of(e: ApiError) -> Seq<char> {
    match e {
        ApiError::Unauthorized(m) => m@,
        ApiError::Retryable(m) => m@,
        ApiError::NonRetryable(m) => m@,
    }
}

impl ApiError {
    /// The message of the error (what displaying it prints).
    pub fn message(&self) -> (r: &str)
        ensures
            r@ == message_of(*self),
    {
        match self {
            ApiError::Unauthorized(m) => m.as_str(),
            ApiError::Retryable(m) => m.as_str(),
            ApiError::NonRetryable(m) => m.as_str(),
        }
    }

    pub fn kind(&self) -> (r: ErrorKind)
        ensures
            r == kind_of(*self),
    {
        match self {
            ApiError::Unauthorized(_) => ErrorKind::Unauthorized,
            ApiError::Retryable(_) => ErrorKind::Retryable,
            ApiError::NonRetryable(_) => ErrorKind::NonRetryable,
        }
    }
}

/// The kind of error an HTTP status other than 2xx means: 401 is an
/// authentication failure, 429 and every 5xx are worth retrying, the rest are not.
pub open spec fn status_error_kind(status: u16) -> ErrorKind {
    if status == 401 {
        ErrorKind::Unauthorized
    } else if status == 429 || (500 <= status <= 599) {
        ErrorKind::Retryable
    } else {
        ErrorKind::NonRetryable
    }
}

/// The error for a response with a non-success HTTP status, carrying `message`.
pub fn error_for_status(status: u16, message: String) -> (r: ApiError)
    ensures
        kind_of(r) == status_error_kind(status),
        message_of(r) == message@,
        (kind_of(r) == ErrorKind::Unauthorized) == (status == 401),
        (kind_of(r) == ErrorKind::Retryable) == (status == 429 || (500 <= status && status <= 599)),
        (kind_of(r) == ErrorKind::NonRetryable) == (status != 401 && status != 429 && !(500
            <= status && status <= 599)),
{
    if status == 401 {
        ApiError::Unauthorized(message)
    } else if status == 429 || (500 <= status && status <= 599) {
        ApiError::Retryable(message)
    } else {
        ApiError::NonRetryable(message)
    }
}

/// Only status 401 is an authentication failure that stops the run; only 429
/// and the 5xx statuses are retried; every other status (403 and 404 among
/// them) skips the delegate without retrying.
pub proof fn law_status_classification(status: u16)
    ensures
        (status_error_kind(status) == ErrorKind::Unauthorized) <==> status == 401,
        (status_error_kind(status) == ErrorKind::Retryable) <==> (status == 429 || (500 <= status
            && status <= 599)),
        (status_error_kind(status) == ErrorKind::NonRetryable) <==> (status != 401 && status != 429
            && !(500 <= status && status <= 599)),
{
}

/// The error for a request that failed before any response: timeouts,
/// connection failures and failures while sending are worth retrying.
pub fn error_for_transport(is_timeout: bool, is_connect: bool, is_request: bool, message: String) -> (r: ApiError)
    ensures
        kind_of(r) == (if is_timeout || is_connect || is_request {
            ErrorKind::Retryable
        } else {
            ErrorKind::NonRetryable
        }),
        message_of(r) == message@,
{
    if is_timeout || is_connect || is_request {
        ApiError::Retryable(message)
    } else {
        ApiError::NonRetryable(message)
    }
}

/// How many times one delegate is sent to the model at most.
pub const MAX_ATTEMPTS: usize = 3;

/// What to do after a failed attempt.
#[derive(Debug)]
pub enum RetryStep {
    /// Wait this many seconds, then make the next attempt.
    RetryAfter(u64),
    /// Stop and report this error.
    GiveUp(ApiError),
}

/// The seconds waited before the next attempt after attempt `attempt` failed
/// with an error of kind `kind`; `None` when the call gives up.
pub open spec fn retry_wait(attempt: int, kind: ErrorKind) -> Option<int> {
    if kind == ErrorKind::Retryable && attempt < MAX_ATTEMPTS {
        Some(2 * attempt)
    } else {
        None
    }
}

/// How many attempts a call makes from attempt `attempt` on, when the
/// attempts end as `outcomes` says (`None` a success, `Some(k)` a failure of
/// kind `k`); a run that runs out of outcomes stops there.
pub open spec fn run_attempts(attempt: int, outcomes: Seq<Option<ErrorKind>>) -> int
    decreases outcomes.len(),
{
    if outcomes.len() == 0 {
        0
    } else {
        match outcomes[0] {
            None => 1,
            Some(k) => match retry_wait(attempt, k) {
                Some(_) => 1 + run_attempts(attempt + 1, outcomes.drop_first()),
                None => 1,
            },
        }
    }
}

/// How many seconds a call waits in all from attempt `attempt` on.
pub open spec fn run_wait(attempt: int, outcomes: Seq<Option<ErrorKind>>) -> int
    decreases outcomes.len(),
{
    if outcomes.len() == 0 {
        0
    } else {
        match outcomes[0] {
            None => 0,
            Some(k) => match retry_wait(attempt, k) {
                Some(w) => w + run_wait(attempt + 1, outcomes.drop_first()),
                None => 0,
            },
        }
    }
}

/// Whether the run from attempt `attempt` on has decided (succeeded or given
/// up) within the given outcomes.
pub open spec fn run_decided(attempt: int, outcomes: Seq<Option<ErrorKind>>) -> bool
    decreases outcomes.len(),
{
    if outcomes.len() == 0 {
        false
    } else {
        match outcomes[0] {
            None => true,
            Some(k) => match retry_wait(attempt, k) {
                Some(_) => run_decided(attempt + 1, outcomes.drop_first()),
                None => true,
            },
        }
    }
}

/// A whole call, whatever its attempts return, makes at most three attempts,
/// waits at most 2 + 4 seconds in all, and has decided once three outcomes are
/// known: it never asks for a fourth attempt. When every attempt fails with a
/// retryable error it makes exactly three attempts and waits exactly 6 seconds.
pub proof fn law_retry_run_bounded(outcomes: Seq<Option<ErrorKind>>)
    ensures
        1 <= run_attempts(1, outcomes) <= MAX_ATTEMPTS || outcomes.len() == 0,
        0 <= run_wait(1, outcomes) <= 6,
        outcomes.len() >= MAX_ATTEMPTS ==> run_decided(1, outcomes),
        outcomes.len() >= MAX_ATTEMPTS && (forall|i: int|
            0 <= i < MAX_ATTEMPTS ==> #[trigger] outcomes[i] == Some(ErrorKind::Retryable))
            ==> run_attempts(1, outcomes) == 3 && run_wait(1, outcomes) == 6,
{
    lemma_run_from(1, outcomes);
    if outcomes.len() >= MAX_ATTEMPTS && (forall|i: int|
        0 <= i < MAX_ATTEMPTS ==> #[trigger] outcomes[i] == Some(ErrorKind::Retryable)) {
        let o1 = outcomes.drop_first();
        let o2 = o1.drop_first();
        assert(outcomes[0] == Some(ErrorKind::Retryable));
        assert(o1[0] == outcomes[1]);
        assert(o2[0] == outcomes[2]);
        assert(outcomes[1] == Some(ErrorKind::Retryable));
        assert(outcomes[2] == Some(ErrorKind::Retryable));
        assert(run_attempts(3, o2) == 1 && run_wait(3, o2) == 0);
        assert(retry_wait(2, ErrorKind::Retryable) == Some(4int));
        assert(run_attempts(2, o1) == 2 && run_wait(2, o1) == 4);
        assert(retry_wait(1, ErrorKind::Retryable) == Some(2int));
    }
}

/// The bound on the seconds still to wait from attempt `attempt` on.
pub open spec fn wait_left(attempt: int) -> int {
    if attempt <= 1 {
        6
    } else if attempt == 2 {
        4
    } else {
        0
    }
}

proof fn lemma_run_from(attempt: int, outcomes: Seq<Option<ErrorKind>>)
    requires
        1 <= attempt <= MAX_ATTEMPTS,
    ensures
        outcomes.len() > 0 ==> 1 <= run_attempts(attempt, outcomes) <= MAX_ATTEMPTS + 1 - attempt,
        outcomes.len() == 0 ==> run_attempts(attempt, outcomes) == 0,
        0 <= run_wait(attempt, outcomes) <= wait_left(attempt),
        outcomes.len() >= MAX_ATTEMPTS + 1 - attempt ==> run_decided(attempt, outcomes),
    decreases outcomes.len(),
{
    if outcomes.len() > 0 {
        if let Some(k) = outcomes[0] {
            if retry_wait(attempt, k) is Some {
                lemma_run_from(attempt + 1, outcomes.drop_first());
            }
        }
    }
}

pub open spec fn give_up_prefix() -> Seq<char> {
    "多次重试后仍失败："@
}

/// After attempt `attempt` (counted from 1) failed with `error`: a retryable
/// error before the last attempt is retried after `2 * attempt` seconds; a
/// retryable error on the last attempt ends the call with a retryable error
/// whose message says that retries were exhausted; any other error ends the
/// call with that error unchanged.
pub fn after_failure(attempt: usize, error: ApiError) -> (r: RetryStep)
    requires
        1 <= attempt <= MAX_ATTEMPTS,
    ensures
        kind_of(error) == ErrorKind::Retryable && attempt < MAX_ATTEMPTS ==> r == RetryStep::RetryAfter(
            (2 * attempt) as u64,
        ),
        kind_of(error) == ErrorKind::Retryable && attempt == MAX_ATTEMPTS ==> (r matches RetryStep::GiveUp(e)
            && kind_of(e) == ErrorKind::Retryable && message_of(e) == give_up_prefix()
            + message_of(error)),
        kind_of(error) != ErrorKind::Retryable ==> r == RetryStep::GiveUp(error),
        r is RetryAfter ==> attempt < MAX_ATTEMPTS && kind_of(error) == ErrorKind::Retryable,
        match retry_wait(attempt as int, kind_of(error)) {
            Some(w) => r == RetryStep::RetryAfter(w as u64),
            None => r is GiveUp,
        },
{
    match error {
        ApiError::Retryable(msg) => {
            if attempt < MAX_ATTEMPTS {
                RetryStep::RetryAfter((attempt as u64) * 2)
            } else {
                let mut m = String::new();
                append_str(&mut m, "多次重试后仍失败：");
                append_str(&mut m, msg.as_str());
                proof {
                    reveal_strlit("多次重试后仍失败：");
                }
                RetryStep::GiveUp(ApiError::Retryable(m))
            }
        },
        other => RetryStep::GiveUp(other),
    }
}

/// A successful call: the record's status is set to "insufficient information"
/// or "success" (see `status_after_call`); `low_confidence` tells whether the
/// model's confidence was absent or at most 0.35.
pub fn after_success(result: LlmResult, low_confidence: bool) -> (r: LlmResult)
    ensures
        r.status == status_after_call(
            result.primary_category,
            result.is_political_business_combo,
            low_confidence,
        ),
        r == (LlmResult { status: r.status, ..result }),
{
    let status = call_status(
        result.primary_category,
        result.is_political_business_combo,
        low_confidence,
    );
    LlmResult { status, ..result }
}

} // verus!
