use delegate_classifier::fence::strip_code_fence;

#[test]
fn fenced_json_is_unwrapped() {
    assert_eq!(strip_code_fence("```json\n{\"a\": 1}\n```"), "{\"a\": 1}");
    assert_eq!(strip_code_fence("  ```\n{\"a\": 1}\n```  \n"), "{\"a\": 1}");
}

#[test]
fn unfenced_text_is_only_trimmed() {
    assert_eq!(strip_code_fence("  {\"a\": 1} \n"), "{\"a\": 1}");
    assert_eq!(strip_code_fence("text ``` inside"), "text ``` inside");
}

#[test]
fn fence_without_closing_line() {
    assert_eq!(strip_code_fence("```json\n{\"a\": 1}\n"), "{\"a\": 1}");
    assert_eq!(strip_code_fence("```"), "");
}

#[test]
fn crlf_lines_and_multi_line_bodies() {
    assert_eq!(strip_code_fence("```json\r\n{\r\n\"a\": 1\r\n}\r\n```"), "{\n\"a\": 1\n}");
    assert_eq!(strip_code_fence("```\nline1\n\nline3\n```\n"), "line1\n\nline3");
}

#[test]
fn closing_fence_with_language_tag_is_kept() {
    assert_eq!(strip_code_fence("```\nx\n```json"), "x\n```json");
}
