use delegate_classifier::category::{Category, RecordStatus};
use delegate_classifier::reply::LlmResult;
use delegate_classifier::retry::{
    after_failure, after_success, error_for_status, error_for_transport, ApiError, ErrorKind,
    RetryStep, MAX_ATTEMPTS,
};

fn record(category: Category, combo: bool) -> LlmResult {
    LlmResult {
        name: "张三".to_string(),
        province: "北京市".to_string(),
        primary_category: category,
        is_political_business_combo: combo,
        combo_brief: String::new(),
        reason: "r".to_string(),
        sources: vec![],
        status: RecordStatus::Success,
    }
}

#[test]
fn http_status_classification() {
    assert_eq!(error_for_status(401, "m".into()).kind(), ErrorKind::Unauthorized);
    assert_eq!(error_for_status(429, "m".into()).kind(), ErrorKind::Retryable);
    assert_eq!(error_for_status(500, "m".into()).kind(), ErrorKind::Retryable);
    assert_eq!(error_for_status(503, "m".into()).kind(), ErrorKind::Retryable);
    assert_eq!(error_for_status(599, "m".into()).kind(), ErrorKind::Retryable);
    assert_eq!(error_for_status(404, "m".into()).kind(), ErrorKind::NonRetryable);
    assert_eq!(error_for_status(400, "m".into()).kind(), ErrorKind::NonRetryable);
    assert_eq!(error_for_status(600, "m".into()).kind(), ErrorKind::NonRetryable);
    assert_eq!(error_for_status(401, "msg".into()).message(), "msg");
}

#[test]
fn transport_failure_classification() {
    assert_eq!(error_for_transport(true, false, false, "m".into()).kind(), ErrorKind::Retryable);
    assert_eq!(error_for_transport(false, true, false, "m".into()).kind(), ErrorKind::Retryable);
    assert_eq!(error_for_transport(false, false, true, "m".into()).kind(), ErrorKind::Retryable);
    assert_eq!(error_for_transport(false, false, false, "m".into()).kind(), ErrorKind::NonRetryable);
}

#[test]
fn retryable_errors_wait_then_give_up() {
    assert_eq!(MAX_ATTEMPTS, 3);
    assert!(matches!(after_failure(1, ApiError::Retryable("e".into())), RetryStep::RetryAfter(2)));
    assert!(matches!(after_failure(2, ApiError::Retryable("e".into())), RetryStep::RetryAfter(4)));
    match after_failure(3, ApiError::Retryable("超时".into())) {
        RetryStep::GiveUp(e) => {
            assert_eq!(e.kind(), ErrorKind::Retryable);
            assert_eq!(e.message(), "多次重试后仍失败：超时");
        }
        other => panic!("unexpected {:?}", other),
    }
}

#[test]
fn other_errors_are_not_retried() {
    for attempt in 1..=3 {
        match after_failure(attempt, ApiError::Unauthorized("401".into())) {
            RetryStep::GiveUp(e) => {
                assert_eq!(e.kind(), ErrorKind::Unauthorized);
                assert_eq!(e.message(), "401");
            }
            other => panic!("unexpected {:?}", other),
        }
        match after_failure(attempt, ApiError::NonRetryable("bad".into())) {
            RetryStep::GiveUp(e) => assert_eq!(e.kind(), ErrorKind::NonRetryable),
            other => panic!("unexpected {:?}", other),
        }
    }
}

#[test]
fn success_sets_the_status() {
    assert_eq!(after_success(record(Category::Unknown, false), true).status, RecordStatus::InsufficientInfo);
    assert_eq!(after_success(record(Category::Unknown, false), false).status, RecordStatus::Success);
    assert_eq!(after_success(record(Category::Unknown, true), true).status, RecordStatus::Success);
    let r = after_success(record(Category::Entrepreneur, false), true);
    assert_eq!(r.status, RecordStatus::Success);
    assert_eq!(r.name, "张三");
    assert_eq!(r.reason, "r");
}

#[test]
fn a_run_of_retryable_failures_makes_three_attempts_and_waits_six_seconds() {
    let mut attempt: usize = 1;
    let mut waited: u64 = 0;
    let outcome = loop {
        match after_failure(attempt, ApiError::Retryable("e".into())) {
            RetryStep::RetryAfter(s) => {
                waited += s;
                attempt += 1;
            }
            RetryStep::GiveUp(e) => break e,
        }
    };
    assert_eq!(attempt, 3);
    assert_eq!(waited, 6);
    assert_eq!(outcome.kind(), ErrorKind::Retryable);
}
