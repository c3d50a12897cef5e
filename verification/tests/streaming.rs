use simple_translate::models::{Settings, TranslationRequest};
use simple_translate::session::{dispatch, Session};

fn test_settings(key: &str) -> Settings {
    Settings {
        api_key: key.to_string(),
        model: "gpt-5-mini-2025-08-07".to_string(),
        provider: "openai".to_string(),
        system_prompt: "You are a translator.".to_string(),
        default_source_language: "en".to_string(),
        default_target_language: "es".to_string(),
    }
}

fn test_request() -> TranslationRequest {
    TranslationRequest {
        text: "Hello".to_string(),
        source_language: "en".to_string(),
        target_language: "es".to_string(),
    }
}

fn streaming_session() -> Session {
    let mut s = dispatch(&test_request(), &test_settings("secret")).unwrap();
    s.on_status(200, "").unwrap();
    s
}

#[test]
fn example_scenario_hola_mundo() {
    let mut s = streaming_session();
    let mut deltas: Vec<String> = Vec::new();
    deltas.extend(s.on_chunk(b"data: {\"choices\":[{\"delta\":{\"content\":\"Hola\"}}]}\n\n"));
    deltas.extend(s.on_chunk(b"data: {\"choices\":[{\"delta\":{\"content\":\" mundo\"}}]}\n\n"));
    deltas.extend(s.on_chunk(b"data: [DONE]\n\n"));
    let resp = s.on_end();
    assert_eq!(deltas, vec!["Hola".to_string(), " mundo".to_string()]);
    assert_eq!(resp.translated_text, "Hola mundo");
    assert_eq!(resp.source_language, "en");
    assert_eq!(resp.target_language, "es");
}

#[test]
fn concatenated_deltas_equal_completion() {
    let mut s = streaming_session();
    let mut all = String::new();
    for d in s.on_chunk(b"data: {\"choices\":[{\"delta\":{\"content\":\"ab\"}}]}\n\ndata: {\"choices\":[{\"delta\":{\"content\":\"cd\"}}]}\n\n") {
        all.push_str(&d);
    }
    let resp = s.on_end();
    assert_eq!(all, resp.translated_text);
    assert_eq!(resp.translated_text, "abcd");
}

fn run_split(bytes: &[u8], split: usize) -> (Vec<String>, String) {
    let mut s = streaming_session();
    let mut deltas: Vec<String> = Vec::new();
    deltas.extend(s.on_chunk(&bytes[..split]));
    deltas.extend(s.on_chunk(&bytes[split..]));
    let resp = s.on_end();
    (deltas, resp.translated_text)
}

#[test]
fn chunk_boundary_invariance() {
    let bytes: &[u8] =
        b"data: {\"choices\":[{\"delta\":{\"content\":\"Hola\"}}]}\n\ndata: {\"choices\":[{\"delta\":{\"content\":\" mundo\"}}]}\n\ndata: [DONE]\n\n";
    let (whole, whole_text) = run_split(bytes, bytes.len());
    assert_eq!(whole, vec!["Hola".to_string(), " mundo".to_string()]);
    for split in 0..=bytes.len() {
        let (deltas, text) = run_split(bytes, split);
        assert_eq!(deltas, whole, "split at {}", split);
        assert_eq!(text, whole_text, "split at {}", split);
    }
}

#[test]
fn chunk_boundary_inside_multibyte_character() {
    // "café" carries a two-byte character; cut the stream inside it.
    let bytes: Vec<u8> =
        b"data: {\"choices\":[{\"delta\":{\"content\":\"caf\xc3\xa9\"}}]}\n\n".to_vec();
    let cut = bytes.iter().position(|&b| b == 0xc3).unwrap() + 1;
    let mut s = streaming_session();
    let mut deltas: Vec<String> = Vec::new();
    deltas.extend(s.on_chunk(&bytes[..cut]));
    deltas.extend(s.on_chunk(&bytes[cut..]));
    assert_eq!(deltas, vec!["café".to_string()]);
}

#[test]
fn done_line_produces_nothing() {
    let mut s = streaming_session();
    let deltas = s.on_chunk(b"data: [DONE]\n\n");
    assert!(deltas.is_empty());
    let resp = s.on_end();
    assert_eq!(resp.translated_text, "");
}

#[test]
fn non_data_lines_are_ignored() {
    let mut s = streaming_session();
    let deltas = s.on_chunk(b"event: ping\n\n: keep-alive comment\n\nretry: 100\n\n");
    assert!(deltas.is_empty());
    let resp = s.on_end();
    assert_eq!(resp.translated_text, "");
}

#[test]
fn malformed_payload_is_skipped() {
    let mut s = streaming_session();
    let mut deltas: Vec<String> = Vec::new();
    deltas.extend(s.on_chunk(b"data: {not json at all\n\n"));
    deltas.extend(s.on_chunk(b"data: {\"unknown\":1}\n\n"));
    deltas.extend(s.on_chunk(b"data: {\"choices\":[{\"delta\":{\"content\":\"ok\"}}]}\n\n"));
    let resp = s.on_end();
    assert_eq!(deltas, vec!["ok".to_string()]);
    assert_eq!(resp.translated_text, "ok");
}

#[test]
fn dispatch_rejects_empty_api_key() {
    let r = dispatch(&test_request(), &test_settings(""));
    let err = r.err().unwrap();
    assert_eq!(err, "API key not configured. Please set your API key in Settings.");
}

#[test]
fn non_2xx_status_surfaces_body() {
    let mut s = dispatch(&test_request(), &test_settings("secret")).unwrap();
    let err = s.on_status(401, "{\"error\":\"invalid key\"}").err().unwrap();
    assert_eq!(err, "{\"error\":\"invalid key\"}");
}

#[test]
fn transport_error_after_deltas_keeps_deltas_and_never_completes() {
    let mut s = streaming_session();
    let deltas = s.on_chunk(b"data: {\"choices\":[{\"delta\":{\"content\":\"par\"}}]}\n\n");
    assert_eq!(deltas, vec!["par".to_string()]);
    let err = s.on_transport_error("connection reset");
    assert_eq!(err, "connection reset");
    // The session is in its terminal error phase: no completion follows.
}

#[test]
fn connection_failure_before_streaming() {
    let mut s = dispatch(&test_request(), &test_settings("secret")).unwrap();
    let err = s.on_transport_error("dns failure");
    assert_eq!(err, "dns failure");
}

#[test]
fn multiple_choices_in_list_order() {
    let mut s = streaming_session();
    let deltas = s.on_chunk(
        b"data: {\"choices\":[{\"delta\":{\"content\":\"a\"}},{\"delta\":{\"content\":\"b\"}}]}\n\n",
    );
    assert_eq!(deltas, vec!["a".to_string(), "b".to_string()]);
}

#[test]
fn multiple_data_lines_in_one_event() {
    let mut s = streaming_session();
    let deltas = s.on_chunk(
        b"data: {\"choices\":[{\"delta\":{\"content\":\"x\"}}]}\ndata: {\"choices\":[{\"delta\":{\"content\":\"y\"}}]}\n\n",
    );
    assert_eq!(deltas, vec!["x".to_string(), "y".to_string()]);
}

#[test]
fn empty_delta_object_produces_nothing() {
    let mut s = streaming_session();
    let deltas = s.on_chunk(b"data: {\"choices\":[{\"delta\":{}}]}\n\n");
    assert!(deltas.is_empty());
}

#[test]
fn whitespace_in_payload_is_tolerated() {
    let mut s = streaming_session();
    let deltas =
        s.on_chunk(b"data: { \"choices\" : [ { \"delta\" : { \"content\" : \"hi\" } } ] }\n\n");
    assert_eq!(deltas, vec!["hi".to_string()]);
}

#[test]
fn string_escapes_are_decoded() {
    let mut s = streaming_session();
    let deltas = s.on_chunk(
        b"data: {\"choices\":[{\"delta\":{\"content\":\"a\\\"b\\\\c\\nd\\u0041\\u00e9\"}}]}\n\n",
    );
    assert_eq!(deltas, vec!["a\"b\\c\ndA\u{e9}".to_string()]);
}

#[test]
fn surrogate_pair_escape_is_decoded() {
    let mut s = streaming_session();
    let deltas =
        s.on_chunk(b"data: {\"choices\":[{\"delta\":{\"content\":\"\\ud83d\\ude00\"}}]}\n\n");
    assert_eq!(deltas, vec!["\u{1f600}".to_string()]);
}

#[test]
fn lone_surrogate_escape_is_malformed() {
    let mut s = streaming_session();
    let deltas = s.on_chunk(b"data: {\"choices\":[{\"delta\":{\"content\":\"\\ud83d\"}}]}\n\n");
    assert!(deltas.is_empty());
}

#[test]
fn partial_event_waits_for_more_data() {
    let mut s = streaming_session();
    let first = s.on_chunk(b"data: {\"choices\":[{\"delta\":{\"content\":\"wait\"}}]}");
    assert!(first.is_empty());
    let second = s.on_chunk(b"\n\n");
    assert_eq!(second, vec!["wait".to_string()]);
}

#[test]
fn request_body_has_model_messages_and_stream_flag() {
    let s = dispatch(&test_request(), &test_settings("secret")).unwrap();
    let body = s.request_body_text();
    let expected = "{\"model\":\"gpt-5-mini-2025-08-07\",\"messages\":[{\"role\":\"system\",\"content\":\"You are a translator.\"},{\"role\":\"user\",\"content\":\"Translate the following text from en to es:\\n\\nHello\"}],\"stream\":true}";
    assert_eq!(body, expected);
}

#[test]
fn credential_is_carried_for_the_authorization_header() {
    let s = dispatch(&test_request(), &test_settings("secret")).unwrap();
    assert_eq!(s.credential(), "secret");
}
