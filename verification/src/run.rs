//! The decisions of a classification run: settings, the result cache, and
//! what happens to each delegate's outcome.
use vstd::prelude::*;

use crate::category::RecordStatus;
use crate::reply::LlmResult;
use crate::retry::{ApiError, ErrorKind, kind_of, message_of};
use crate::text::{append_str, has_infix, lemma_trim_shape, str_contains, trim, trim_str};

verus! {

/// How many delegates are classified at the same time when the configuration says nothing.
pub fn default_max_concurrency() -> (r: usize)
    ensures
        r == 5,
{
    5
}

/// Which National People's Congress is listed when the configuration says nothing.
pub fn default_npc_term() -> (r: u32)
    ensures
        r == 14,
{
    14
}

/// The number of concurrent classifications actually used: at least one.
pub fn effective_concurrency(configured: usize) -> (r: usize)
    ensures
        r == if configured < 1 {
            1
        } else {
            configured
        },
{
    if configured < 1 {
        1
    } else {
        configured
    }
}

/// Above this many concurrent classifications the run warns of rate limits.
pub const HIGH_CONCURRENCY: usize = 10;

pub fn concurrency_is_high(effective: usize) -> (r: bool)
    ensures
        r == (effective > HIGH_CONCURRENCY),
{
    effective > HIGH_CONCURRENCY
}

/// The cache key of a delegate: trimmed name, `||`, trimmed province.
pub open spec fn key_of(name: Seq<char>, province: Seq<char>) -> Seq<char> {
    trim(name) + "||"@ + trim(province)
}

pub fn cache_key(name: &str, province: &str) -> (r: String)
    ensures
        r@ == key_of(name@, province@),
{
    let mut k = trim_str(name);
    append_str(&mut k, "||");
    let p = trim_str(province);
    append_str(&mut k, p.as_str());
    k
}

/// Only records that came from an answer of the model are cached; a failed
/// call is tried again on the next run.
pub fn should_cache(result: &LlmResult) -> (r: bool)
    ensures
        r == (result.status == RecordStatus::Success || result.status
            == RecordStatus::InsufficientInfo),
        r == (result.status != RecordStatus::LlmError),
{
    match result.status {
        RecordStatus::Success | RecordStatus::InsufficientInfo => true,
        RecordStatus::LlmError => false,
    }
}

/// What became of one delegate sent to the model.
#[derive(Debug)]
pub enum TaskOutcome {
    /// The model answered.
    Classified(LlmResult),
    /// The call failed; the delegate is left out of this run and not cached.
    Skipped(String),
    /// The service refused the credentials; the run stops sending delegates.
    AuthAborted(String),
}

pub open spec fn abort_prefix() -> Seq<char> {
    "检测到 401/认证失败，已停止后续分类任务："@
}

/// The message that reports an authentication failure.
pub fn auth_abort_message(message: &str) -> (r: String)
    ensures
        r@ == abort_prefix() + message@,
{
    let mut m = String::from_str("检测到 401/认证失败，已停止后续分类任务：");
    append_str(&mut m, message);
    m
}

/// The outcome of one delegate's call: an answer is kept, an authentication
/// failure stops the run, any other failure skips the delegate.
pub fn task_outcome(result: Result<LlmResult, ApiError>) -> (r: TaskOutcome)
    ensures
        match result {
            Ok(x) => r == TaskOutcome::Classified(x),
            Err(e) => match kind_of(e) {
                ErrorKind::Unauthorized => r matches TaskOutcome::AuthAborted(m) && m@ == abort_prefix()
                    + message_of(e),
                _ => r matches TaskOutcome::Skipped(m) && m@ == message_of(e),
            },
        },
{
    match result {
        Ok(x) => TaskOutcome::Classified(x),
        Err(ApiError::Unauthorized(msg)) => TaskOutcome::AuthAborted(auth_abort_message(msg.as_str())),
        Err(ApiError::Retryable(msg)) => TaskOutcome::Skipped(msg),
        Err(ApiError::NonRetryable(msg)) => TaskOutcome::Skipped(msg),
    }
}

/// A failed task's message tells of an authentication failure when it
/// mentions `401` or `认证失败`.
pub open spec fn mentions_auth_failure(message: Seq<char>) -> bool {
    has_infix(message, "401"@) || has_infix(message, "认证失败"@)
}

pub fn is_auth_failure_message(message: &str) -> (r: bool)
    ensures
        r == mentions_auth_failure(message@),
{
    str_contains(message, "401") || str_contains(message, "认证失败")
}

/// An authentication failure is always recognised again from its message.
pub proof fn law_abort_message_recognised(message: Seq<char>)
    ensures
        mentions_auth_failure(abort_prefix() + message),
{
    reveal_strlit("检测到 401/认证失败，已停止后续分类任务：");
    reveal_strlit("401");
    let s = abort_prefix() + message;
    assert(s.subrange(4, 7) =~= "401"@);
    assert(crate::text::occurs_at(s, "401"@, 4));
}

/// Names and provinces that differ only in surrounding whitespace share a
/// cache key, so a cached result is found again.
pub proof fn law_cache_key_ignores_padding(name: Seq<char>, province: Seq<char>)
    ensures
        key_of(trim(name), trim(province)) == key_of(name, province),
{
    lemma_trim_shape(name);
    lemma_trim_shape(province);
}

} // verus!
