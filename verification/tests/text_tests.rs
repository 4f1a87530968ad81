use delegate_classifier::text::{
    is_whitespace, str_contains, str_eq, str_starts_with, trim_end_matches_char, trim_str,
    u32_decimal,
};

#[test]
fn trims_unicode_whitespace() {
    assert_eq!(trim_str("\u{3000} 张三\u{a0}\t\n"), "张三");
    assert_eq!(trim_str("   "), "");
    assert_eq!(trim_str("a b"), "a b");
    let s = " \u{2002}x\u{205f}";
    assert_eq!(trim_str(s), s.trim());
}

#[test]
fn whitespace_agrees_with_std() {
    for u in 0u32..0x3100 {
        if let Some(c) = char::from_u32(u) {
            assert_eq!(is_whitespace(c), c.is_whitespace(), "{:x}", u);
        }
    }
}

#[test]
fn searching_text() {
    assert!(str_contains("abc401def", "401"));
    assert!(!str_contains("abc", "abcd"));
    assert!(str_contains("abc", ""));
    assert!(str_starts_with("```json", "```"));
    assert!(!str_starts_with("``", "```"));
    assert!(str_eq("未知", "未知"));
    assert!(!str_eq("未知", "未"));
}

#[test]
fn trailing_slashes_and_decimals() {
    assert_eq!(trim_end_matches_char("https://x.com///", '/'), "https://x.com");
    assert_eq!(trim_end_matches_char("///", '/'), "");
    assert_eq!(u32_decimal(0), "0");
    assert_eq!(u32_decimal(14), "14");
    assert_eq!(u32_decimal(u32::MAX), u32::MAX.to_string());
}
