use delegate_classifier::category::{Category, RecordStatus};
use delegate_classifier::prompt::{build_prompt, chat_completions_url, system_prompt};
use delegate_classifier::reply::LlmResult;
use delegate_classifier::retry::ApiError;
use delegate_classifier::run::{
    auth_abort_message, cache_key, concurrency_is_high, default_max_concurrency,
    default_npc_term, effective_concurrency, is_auth_failure_message, should_cache,
    task_outcome, TaskOutcome,
};

fn rec(status: RecordStatus) -> LlmResult {
    LlmResult {
        name: "n".to_string(),
        province: "p".to_string(),
        primary_category: Category::Unknown,
        is_political_business_combo: false,
        combo_brief: String::new(),
        reason: String::new(),
        sources: vec![],
        status,
    }
}

#[test]
fn settings() {
    assert_eq!(default_max_concurrency(), 5);
    assert_eq!(default_npc_term(), 14);
    assert_eq!(effective_concurrency(0), 1);
    assert_eq!(effective_concurrency(7), 7);
    assert!(!concurrency_is_high(10));
    assert!(concurrency_is_high(11));
}

#[test]
fn cache_keys_and_what_is_cached() {
    assert_eq!(cache_key(" 张三 ", "北京市\n"), "张三||北京市");
    assert_eq!(cache_key("张三", "北京市"), cache_key("  张三", " 北京市 "));
    assert!(should_cache(&rec(RecordStatus::Success)));
    assert!(should_cache(&rec(RecordStatus::InsufficientInfo)));
    assert!(!should_cache(&rec(RecordStatus::LlmError)));
}

#[test]
fn authentication_failures_stop_the_run() {
    let m = auth_abort_message("LLM 接口返回错误");
    assert_eq!(m, "检测到 401/认证失败，已停止后续分类任务：LLM 接口返回错误");
    assert!(is_auth_failure_message(&m));
    assert!(is_auth_failure_message("HTTP 401"));
    assert!(is_auth_failure_message("认证失败了"));
    assert!(!is_auth_failure_message("timeout"));
    match task_outcome(Err(ApiError::Unauthorized("key".into()))) {
        TaskOutcome::AuthAborted(m) => assert_eq!(m, "检测到 401/认证失败，已停止后续分类任务：key"),
        other => panic!("unexpected {:?}", other),
    }
    assert!(matches!(task_outcome(Err(ApiError::Retryable("t".into()))), TaskOutcome::Skipped(_)));
    assert!(matches!(task_outcome(Err(ApiError::NonRetryable("t".into()))), TaskOutcome::Skipped(_)));
    assert!(matches!(task_outcome(Ok(rec(RecordStatus::Success))), TaskOutcome::Classified(_)));
}

#[test]
fn what_is_sent_to_the_model() {
    assert_eq!(build_prompt("张三", "北京市"), "输入信息：\n- 人名：张三\n- 省份/代表团：北京市\n");
    assert_eq!(chat_completions_url(None), "https://api.deepseek.com/chat/completions");
    assert_eq!(chat_completions_url(Some("http://h/v1//")), "http://h/v1/chat/completions");
    let p = system_prompt();
    assert!(p.starts_with("你是一个严谨的信息分类助手。"));
    assert!(p.contains("\"primary_category\": \"党政干部|企业家|工农基层代表|解放军和武警系统代表|其他各行业各领域代表|未知\""));
    assert!(p.ends_with("- 必须保证 JSON 合法"));
}
