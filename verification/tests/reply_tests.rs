use delegate_classifier::category::{Category, RecordStatus};
use delegate_classifier::reply::{
    brace_span, parse_model_reply, record_from_members, reply_content, try_parse_model_reply,
    BraceSpan, ReplyMembers,
};
use delegate_classifier::retry::ErrorKind;

const FULL: &str = r#"{"name":"张三","province":"北京市","primary_category":"企业家","is_political_business_combo":true,"combo_brief":"董事长兼人大代表","reason":"公开简历","confidence":0.9,"sources":["来源1",2,"来源2"]}"#;

#[test]
fn full_answer_gives_every_field() {
    let p = parse_model_reply(FULL, "李四", "上海市").unwrap();
    let r = &p.result;
    assert_eq!(r.name, "张三");
    assert_eq!(r.province, "北京市");
    assert_eq!(r.primary_category, Category::Entrepreneur);
    assert!(r.is_political_business_combo);
    assert_eq!(r.combo_brief, "董事长兼人大代表");
    assert_eq!(r.reason, "公开简历");
    assert_eq!(r.sources, vec!["来源1".to_string(), "来源2".to_string()]);
    assert_eq!(r.status, RecordStatus::Success);
    assert_eq!(p.json_text, FULL);
}

#[test]
fn fenced_answer_with_missing_members_falls_back() {
    let content = "```json\n{\"primary_category\": \" 党政干部 \", \"sources\": \"x\"}\n```";
    let p = parse_model_reply(content, "李四", "上海市").unwrap();
    let r = &p.result;
    assert_eq!(r.name, "李四");
    assert_eq!(r.province, "上海市");
    assert_eq!(r.primary_category, Category::PartyGovernmentCadre);
    assert!(!r.is_political_business_combo);
    assert_eq!(r.combo_brief, "");
    assert_eq!(r.reason, "");
    assert!(r.sources.is_empty());
    assert_eq!(p.json_text, "{\"primary_category\": \" 党政干部 \", \"sources\": \"x\"}");
}

#[test]
fn json_object_inside_prose_is_found() {
    let content = "结论如下：{\"name\": \"王五\", \"primary_category\": \"科学家\"} 以上。";
    let p = parse_model_reply(content, "x", "y").unwrap();
    assert_eq!(p.result.name, "王五");
    assert_eq!(p.result.primary_category, Category::Unknown);
    assert_eq!(p.json_text, "{\"name\": \"王五\", \"primary_category\": \"科学家\"}");
}

#[test]
fn answer_without_json_is_a_non_retryable_error() {
    for content in ["没有找到资料", "{ broken", "{\"a\": }"] {
        let e = parse_model_reply(content, "x", "y").unwrap_err();
        assert_eq!(e.kind(), ErrorKind::NonRetryable);
        assert_eq!(e.message(), "解析模型输出失败: 模型输出不是合法 JSON");
    }
}

#[test]
fn reversed_braces_are_refused() {
    assert!(try_parse_model_reply("} 然后 {", "x", "y").is_none());
    assert!(try_parse_model_reply("} {", "x", "y").is_none());
    // touching braces give an empty span, which is no JSON
    let e = try_parse_model_reply("}{", "x", "y").unwrap().unwrap_err();
    assert_eq!(e.kind(), ErrorKind::NonRetryable);
    assert_eq!(e.message(), "解析模型输出失败: 模型输出不是合法 JSON");
    let e = parse_model_reply("前}{后", "x", "y").unwrap_err();
    assert_eq!(e.message(), "解析模型输出失败: 模型输出不是合法 JSON");
    assert!(try_parse_model_reply(FULL, "x", "y").unwrap().is_ok());
    assert!(try_parse_model_reply("none", "x", "y").unwrap().is_err());
    // a JSON string holding braces in that order is still read as JSON
    assert!(try_parse_model_reply("\"}{\"", "x", "y").unwrap().is_ok());
}

#[test]
fn brace_spans() {
    assert!(matches!(brace_span("abc"), BraceSpan::Missing));
    assert!(matches!(brace_span("{abc"), BraceSpan::Missing));
    assert!(matches!(brace_span("} {"), BraceSpan::Reversed));
    match brace_span("a}{b") {
        BraceSpan::Span(s) => assert_eq!(s, ""),
        _ => panic!("expected an empty span"),
    }
    match brace_span("a{b}c}d") {
        BraceSpan::Span(s) => assert_eq!(s, "{b}c}"),
        _ => panic!("expected a span"),
    }
}

#[test]
fn record_from_members_defaults() {
    let m = ReplyMembers {
        name: None,
        province: Some("广东省".to_string()),
        primary_category: Some("解放军和武警系统代表".to_string()),
        is_political_business_combo: None,
        combo_brief: Some("b".to_string()),
        reason: None,
        sources: Some(vec![None, Some("s".to_string())]),
    };
    let r = record_from_members(m, "赵六", "湖南省");
    assert_eq!(r.name, "赵六");
    assert_eq!(r.province, "广东省");
    assert_eq!(r.primary_category, Category::MilitaryArmedPolice);
    assert!(!r.is_political_business_combo);
    assert_eq!(r.combo_brief, "b");
    assert_eq!(r.reason, "");
    assert_eq!(r.sources, vec!["s".to_string()]);
}

#[test]
fn chat_reply_content() {
    assert_eq!(reply_content(Some("  {\"a\":1}\n")).unwrap(), "{\"a\":1}");
    let e = reply_content(None).unwrap_err();
    assert_eq!(e.kind(), ErrorKind::NonRetryable);
    assert_eq!(e.message(), "未找到模型输出内容");
}
