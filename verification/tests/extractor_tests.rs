use email_server::config::{default_patterns, LlmFallbackConfig};
use email_server::extractor::{
    compile_patterns, extract, extract_or_defer, interpret_llm_answer, llm_answer_from_response, llm_authorization,
    llm_endpoint, llm_prompt, CompiledPattern, ExtractionStep,
};

fn defaults() -> Vec<CompiledPattern> {
    compile_patterns(&default_patterns())
}

fn pats(sources: &[&str]) -> Vec<CompiledPattern> {
    compile_patterns(&sources.iter().map(|s| s.to_string()).collect())
}

#[test]
fn readme_examples() {
    let p = defaults();
    assert_eq!(p.len(), 3);
    assert_eq!(extract("Your code is 123456", "", &p), Some("123456".to_string()));
    assert_eq!(extract("", "code: 1234-5678 now", &p), Some("1234-5678".to_string()));
    assert_eq!(extract("", "code 12345678.", &p), Some("12345678".to_string()));
    assert_eq!(extract("hello", "no digits here", &p), None);
}

#[test]
fn subject_is_searched_before_body() {
    let p = defaults();
    assert_eq!(extract("code 111111", "code 222222", &p), Some("111111".to_string()));
    assert_eq!(extract("welcome", "code 222222", &p), Some("222222".to_string()));
}

#[test]
fn patterns_are_tried_in_order() {
    // both patterns match the subject; the first listed wins
    let p = pats(&[r"\b\d{4}-\d{4}\b", r"\b\d{4}\b"]);
    assert_eq!(extract("ref 9999 code 1234-5678", "", &p), Some("1234-5678".to_string()));
    let q = pats(&[r"\b\d{4}\b", r"\b\d{4}-\d{4}\b"]);
    assert_eq!(extract("ref 9999 code 1234-5678", "", &q), Some("9999".to_string()));
    // a later pattern on the subject beats the first pattern on the body
    let r = pats(&[r"\b\d{6}\b", r"\b[A-Z0-9]{8}\b"]);
    assert_eq!(extract("token AB12CD34", "code 123456", &r), Some("AB12CD34".to_string()));
}

#[test]
fn invalid_patterns_are_dropped() {
    let p = pats(&[r"(unclosed", r"\b\d{6}\b", r"[z-a]"]);
    assert_eq!(p.len(), 1);
    assert_eq!(extract("999999", "", &p), Some("999999".to_string()));
    assert_eq!(pats(&["("]).len(), 0);
    assert_eq!(pats(&[r"\d+"]).len(), 1);
}

#[test]
fn six_digits_need_word_boundaries() {
    let p = defaults();
    assert_eq!(extract("1234567", "", &p), None);
    assert_eq!(extract("a1234567b", "x 654321 y", &p), Some("654321".to_string()));
}

fn llm(enabled: bool, key: &str) -> LlmFallbackConfig {
    let mut c = LlmFallbackConfig::default();
    c.enabled = enabled;
    c.api_key = key.to_string();
    c
}

#[test]
fn fallback_only_when_patterns_fail_and_enabled() {
    let p = defaults();
    match extract_or_defer("code 123456", "", &p, &llm(true, "sk")) {
        ExtractionStep::Found(c) => assert_eq!(c, "123456"),
        _ => panic!("expected a code"),
    }
    assert!(matches!(extract_or_defer("hi", "there", &p, &llm(true, "sk")), ExtractionStep::AskLlm));
    assert!(matches!(extract_or_defer("hi", "there", &p, &llm(false, "sk")), ExtractionStep::NotFound));
    assert!(matches!(extract_or_defer("hi", "there", &p, &llm(true, "")), ExtractionStep::NotFound));
}

#[test]
fn fallback_answers() {
    assert_eq!(interpret_llm_answer(" 482913 \n"), Some("482913".to_string()));
    assert_eq!(interpret_llm_answer("NONE"), None);
    assert_eq!(interpret_llm_answer("  none\n"), None);
    assert_eq!(interpret_llm_answer("NoNe"), None);
    assert_eq!(interpret_llm_answer("   "), None);
    assert_eq!(interpret_llm_answer(""), None);
    assert_eq!(interpret_llm_answer("NONE1"), Some("NONE1".to_string()));
}

#[test]
fn prompt_truncates_by_bytes() {
    let subject = "s".repeat(250);
    let body = "b".repeat(600);
    let p = llm_prompt(&subject, &body);
    assert_eq!(p, format!("Subject: {}\n\nBody: {}", &subject[..200], &body[..500]));
    assert_eq!(llm_prompt("hi", "there"), "Subject: hi\n\nBody: there");
    // multi-byte text cut on a character boundary
    let cjk = "验证码".repeat(100); // 3 bytes per char, 200 is not a boundary but 201 is
    let short = "码".repeat(60); // 180 bytes: shorter than the limit
    assert_eq!(llm_prompt(&short, "x"), format!("Subject: {}\n\nBody: x", short));
    assert!(!cjk.is_char_boundary(200));
}

#[test]
fn endpoint_and_header() {
    assert_eq!(llm_endpoint("https://api.openai.com/v1"), "https://api.openai.com/v1/chat/completions");
    assert_eq!(llm_endpoint("https://host/v1///"), "https://host/v1/chat/completions");
    assert_eq!(llm_endpoint(""), "/chat/completions");
    assert_eq!(llm_authorization("sk-xxx"), "Bearer sk-xxx");
}

#[test]
fn fallback_response_bodies() {
    let ok = r#"{"id":"x","choices":[{"index":0,"message":{"role":"assistant","content":" 482913\n"}}]}"#;
    assert_eq!(llm_answer_from_response(ok), Some("482913".to_string()));
    let none = r#"{"choices":[{"message":{"content":"NONE"}}]}"#;
    assert_eq!(llm_answer_from_response(none), None);
    assert_eq!(llm_answer_from_response(r#"{"choices":[]}"#), None);
    assert_eq!(llm_answer_from_response(r#"{"choices":[{"message":{"content":7}}]}"#), None);
    assert_eq!(llm_answer_from_response(r#"{"choices":{"0":{"message":{"content":"1"}}}}"#), None);
    assert_eq!(llm_answer_from_response("not json"), None);
    let second = r#"{"choices":[{"message":{"content":"A1"}},{"message":{"content":"B2"}}]}"#;
    assert_eq!(llm_answer_from_response(second), Some("A1".to_string()));
}
