use email_server::config::{
    apply_overrides, code_info_at, code_info_from_clock, code_info_now, default_bind, default_idle_timeout, default_imap_port,
    default_llm_base_url, default_llm_model, default_llm_provider, default_patterns,
    default_poll_interval, default_true, parse_api_keys, Config, ExtractionConfig,
    LlmFallbackConfig, Protocol, AccountConfig,
};

#[test]
fn defaults_are_the_documented_ones() {
    assert_eq!(default_bind(), "0.0.0.0:8080");
    assert_eq!(
        default_patterns(),
        vec![r"\b\d{6}\b".to_string(), r"\b\d{4}-\d{4}\b".to_string(), r"\b\d{8}\b".to_string()]
    );
    assert_eq!(default_llm_provider(), "openai");
    assert_eq!(default_llm_model(), "gpt-4.1-mini");
    assert_eq!(default_llm_base_url(), "https://api.openai.com/v1");
    assert_eq!(default_imap_port(), 993);
    assert!(default_true());
    assert_eq!(default_idle_timeout(), 29);
    assert_eq!(default_poll_interval(), 60);
}

#[test]
fn default_impls() {
    let llm = LlmFallbackConfig::default();
    assert!(!llm.enabled);
    assert_eq!(llm.provider, "openai");
    assert_eq!(llm.api_key, "");
    assert_eq!(llm.model, "gpt-4.1-mini");
    assert_eq!(llm.base_url, "https://api.openai.com/v1");
    let ex = ExtractionConfig::default();
    assert_eq!(ex.patterns, default_patterns());
    assert!(!ex.llm_fallback.enabled);
}

#[test]
fn api_key_list_is_split_on_commas_and_trimmed() {
    assert_eq!(parse_api_keys("key1,key2"), vec!["key1", "key2"]);
    assert_eq!(parse_api_keys(" a , b ,,"), vec!["a", "b", "", ""]);
    assert_eq!(parse_api_keys(""), vec![""]);
}

fn sample_config() -> Config {
    Config {
        bind: default_bind(),
        api_keys: vec!["old".to_string()],
        extraction: ExtractionConfig::default(),
        accounts: vec![AccountConfig {
            name: "my-email".to_string(),
            protocol: Protocol::Imap,
            host: "imap.example.com".to_string(),
            port: 993,
            tls: true,
            email: "user@example.com".to_string(),
            password: "app-password".to_string(),
            idle_timeout_minutes: 29,
            poll_interval_secs: 60,
        }],
    }
}

#[test]
fn environment_overrides() {
    let mut c = sample_config();
    apply_overrides(&mut c, Some("0.0.0.0:9090".to_string()), Some("key1, key2".to_string()));
    assert_eq!(c.bind, "0.0.0.0:9090");
    assert_eq!(c.api_keys, vec!["key1", "key2"]);
    assert_eq!(c.accounts.len(), 1);

    let mut d = sample_config();
    apply_overrides(&mut d, None, None);
    assert_eq!(d.bind, "0.0.0.0:8080");
    assert_eq!(d.api_keys, vec!["old"]);
}

#[test]
fn code_info_is_stamped() {
    let info = code_info_now("123456".to_string(), "Your code".to_string(), "a@b".to_string(), "acct").unwrap();
    assert_eq!(info.code, "123456");
    assert_eq!(info.subject, "Your code");
    assert_eq!(info.from, "a@b");
    assert_eq!(info.account, "acct");
    let t: Vec<char> = info.time.chars().collect();
    assert_eq!(t.len(), 19);
    assert_eq!(t[4], '-');
    assert_eq!(t[10], ' ');
    assert_eq!(t[13], ':');
}

#[test]
fn code_info_time_is_formatted_utc() {
    let info = code_info_at("1".to_string(), "s".to_string(), "f".to_string(), "a", 1_780_228_800);
    assert_eq!(info.time, "2026-05-31 12:00:00");
    for secs in [0i64, 59, 86_399, 951_782_400, 253_402_300_799, -62_167_219_200] {
        let info = code_info_at(String::new(), String::new(), String::new(), "", secs);
        let expected = chrono::DateTime::from_timestamp(secs, 0).unwrap().format("%Y-%m-%d %H:%M:%S").to_string();
        assert_eq!(info.time, expected);
        assert_eq!(info.time.chars().count(), 19);
    }
    assert_eq!(code_info_at(String::new(), String::new(), String::new(), "", 0).time, "1970-01-01 00:00:00");
    assert_eq!(
        code_info_at(String::new(), String::new(), String::new(), "", -62_167_219_200).time,
        "0000-01-01 00:00:00"
    );
}

#[test]
fn code_info_from_clock_readings() {
    let s = || String::new();
    let info = code_info_from_clock("c".to_string(), s(), s(), "a", Some(1_780_228_800)).unwrap();
    assert_eq!(info.time, "2026-05-31 12:00:00");
    assert_eq!(info.code, "c");
    assert!(code_info_from_clock(s(), s(), s(), "a", None).is_none());
    assert!(code_info_from_clock(s(), s(), s(), "a", Some(u64::MAX)).is_none());
}
