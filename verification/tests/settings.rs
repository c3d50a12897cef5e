use simple_translate::config::{parse_settings, render_settings};
use simple_translate::models::{default_system_prompt, Settings};

fn sample() -> Settings {
    Settings {
        api_key: "sk-test".to_string(),
        model: "gpt-5-mini-2025-08-07".to_string(),
        provider: "openai".to_string(),
        system_prompt: "Translate faithfully.".to_string(),
        default_source_language: "en".to_string(),
        default_target_language: "es".to_string(),
    }
}

#[test]
fn settings_round_trip() {
    let s = sample();
    let text = render_settings(&s);
    let back = parse_settings(&text).unwrap();
    assert_eq!(back, s);
}

#[test]
fn settings_round_trip_special_characters() {
    let s = Settings {
        api_key: "key \"quoted\" \\slash\\".to_string(),
        model: "m\nodel\twith\rcontrol\u{1}chars".to_string(),
        provider: "prov\u{e9}der \u{1f600}".to_string(),
        system_prompt: "line one\nline two".to_string(),
        default_source_language: "".to_string(),
        default_target_language: "zh".to_string(),
    };
    let text = render_settings(&s);
    let back = parse_settings(&text).unwrap();
    assert_eq!(back, s);
}

#[test]
fn default_settings_round_trip() {
    let s = Settings::default();
    let back = parse_settings(&render_settings(&s)).unwrap();
    assert_eq!(back, s);
}

#[test]
fn documented_default_values() {
    let s = Settings::default();
    assert_eq!(s.api_key, "");
    assert_eq!(s.model, "gpt-5-mini-2025-08-07");
    assert_eq!(s.provider, "openai");
    assert_eq!(s.system_prompt, default_system_prompt());
    assert_eq!(s.default_source_language, "en");
    assert_eq!(s.default_target_language, "es");
}

#[test]
fn rendered_document_is_exact() {
    let s = sample();
    let text = render_settings(&s);
    let expected = "{\"api_key\":\"sk-test\",\"model\":\"gpt-5-mini-2025-08-07\",\"provider\":\"openai\",\"system_prompt\":\"Translate faithfully.\",\"default_source_language\":\"en\",\"default_target_language\":\"es\"}";
    assert_eq!(text, expected);
}

#[test]
fn parse_tolerates_whitespace() {
    let text = "{ \"api_key\" : \"k\" ,\n  \"model\" : \"m\" ,\n  \"provider\" : \"p\" ,\n  \"system_prompt\" : \"sp\" ,\n  \"default_source_language\" : \"en\" ,\n  \"default_target_language\" : \"es\" }";
    let s = parse_settings(text).unwrap();
    assert_eq!(s.api_key, "k");
    assert_eq!(s.model, "m");
    assert_eq!(s.provider, "p");
    assert_eq!(s.system_prompt, "sp");
    assert_eq!(s.default_source_language, "en");
    assert_eq!(s.default_target_language, "es");
}

#[test]
fn parse_rejects_other_documents() {
    assert!(parse_settings("").is_none());
    assert!(parse_settings("not json").is_none());
    assert!(parse_settings("{\"api_key\":\"k\"}").is_none());
    assert!(parse_settings("[]").is_none());
}
