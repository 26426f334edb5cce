use api_studio::ai::{build_context_preview, fingerprint, normalize_secret_key, redact_value, AiContextPolicy};
use api_studio::assistant::{
    ai_settings, check_provider_credentials, extract_response_text, preview_session_ai_context, read_provider_response,
    validate_ai_settings, verify_preview, AiGenerateInput, AiSettingsInput,
};
use api_studio::json::{parse_json, pretty_json, JsonValue};

fn text(s: &str) -> JsonValue {
    JsonValue::String(s.into())
}

#[test]
fn fingerprints_are_sha256_in_hex() {
    assert_eq!(fingerprint("abc"), "ba7816bf8f01cfea414140de5dae2223b00361a396177a9cb410ff61f20015ad");
    assert_ne!(fingerprint("abc"), fingerprint("abd"));
}

#[test]
fn json_documents_read_and_write() {
    let value = parse_json("{\"b\": [1, true, null], \"a\": \"x\"}").unwrap();
    match &value {
        JsonValue::Object(members) => {
            assert_eq!(members.len(), 2);
            assert!(members.iter().any(|(k, _)| k == "a"));
        },
        _ => panic!("not an object"),
    }
    assert!(parse_json("{not json").is_err());
    let text = pretty_json(&JsonValue::Array(vec![JsonValue::Number("1".into())])).unwrap();
    assert_eq!(text, "[\n  1\n]");
}

#[test]
fn secret_members_are_redacted() {
    let value = JsonValue::Object(vec![
        ("password".to_string(), text("hunter2")),
        ("user".to_string(), text("ana")),
        (
            "headers".to_string(),
            JsonValue::Array(vec![JsonValue::Object(vec![
                ("name".to_string(), text("Authorization")),
                ("value".to_string(), text("Bearer t")),
            ])]),
        ),
    ]);
    let keys = vec![normalize_secret_key("Password")];
    let (redacted, count) = redact_value(&value, &keys, usize::MAX, None);
    assert!(count >= 2);
    let shown = pretty_json(&redacted).unwrap();
    assert!(!shown.contains("hunter2"));
    assert!(!shown.contains("Bearer t"));
    assert!(shown.contains("ana"));
}

#[test]
fn previews_are_fingerprinted_and_bounded() {
    let policy = AiContextPolicy { max_context_bytes: 100_000, max_string_chars: 4, secret_json_keys: vec![] };
    let preview = build_context_preview(&JsonValue::Object(vec![("note".to_string(), text("abcdefgh"))]), &policy).unwrap();
    assert_eq!(preview.context_fingerprint, fingerprint(&preview.json));
    assert_eq!(preview.byte_count, preview.json.len());
    assert!(!preview.json.contains("abcdefgh"));
    assert!(verify_preview(&preview, &AiGenerateInput { expected_context_fingerprint: preview.context_fingerprint.clone() }).is_ok());
    let changed = verify_preview(&preview, &AiGenerateInput { expected_context_fingerprint: "other".into() }).unwrap_err();
    assert_eq!(changed.code, "ai_context_changed");
    assert!(changed.recoverable);
}

#[test]
fn secret_query_parameters_in_urls_are_redacted() {
    let value = JsonValue::Object(vec![("url".to_string(), text("https://api.test/items?token=abc123&page=2#top"))]);
    let policy = AiContextPolicy { max_context_bytes: 100_000, max_string_chars: 12_000, secret_json_keys: vec!["token".into()] };
    let preview = build_context_preview(&value, &policy).unwrap();
    assert!(!preview.json.contains("abc123"));
    assert!(preview.json.contains("https://api.test/items?token=<redacted>&page=2#top"));
    assert_eq!(preview.redaction_count, 1);
    let raw = JsonValue::String("Access-Token=x1&Access-Token=x2&q=1".into());
    let keys = vec![normalize_secret_key("access token")];
    let (redacted, count) = redact_value(&raw, &keys, usize::MAX, None);
    assert_eq!(count, 2);
    assert_eq!(redacted, text("Access-Token=<redacted>&Access-Token=<redacted>&q=1"));
    let (plain, none) = redact_value(&text("no parameters here"), &keys, usize::MAX, None);
    assert_eq!(none, 0);
    assert_eq!(plain, text("no parameters here"));
}

#[test]
fn truncated_context_stays_within_its_byte_cap() {
    let escaped = "\"\n".repeat(2_000);
    let policy = AiContextPolicy { max_context_bytes: 1_000, max_string_chars: 100_000, secret_json_keys: vec![] };
    let preview = build_context_preview(&JsonValue::Object(vec![("body".to_string(), text(&escaped))]), &policy).unwrap();
    assert!(preview.truncated);
    assert!(preview.byte_count <= 1_000);
    assert_eq!(preview.byte_count, preview.json.len());
    assert!(preview.json.contains("contextTruncated"));
    assert_eq!(preview.context_fingerprint, fingerprint(&preview.json));
}

#[test]
fn sessions_are_not_compared_with_themselves() {
    let policy = AiContextPolicy { max_context_bytes: 100_000, max_string_chars: 100, secret_json_keys: vec![] };
    let error = preview_session_ai_context("s", "s", JsonValue::Null, &policy).unwrap_err();
    assert_eq!(error.code, "compare_same_session");
    assert!(error.recoverable);
}

#[test]
fn settings_are_validated() {
    let input = |provider: &str, model: &str| AiSettingsInput {
        provider: provider.into(),
        model: model.into(),
        api_key: None,
        secret_json_keys: vec![" Token ".into(), "".into()],
    };
    assert_eq!(validate_ai_settings(&input("other", "m")).unwrap_err().code, "ai_provider_unsupported");
    assert_eq!(validate_ai_settings(&input("openai", " ")).unwrap_err().code, "ai_model_required");
    let (model, keys) = validate_ai_settings(&input(" openai ", " gpt ")).unwrap();
    assert_eq!(model, "gpt");
    assert_eq!(keys, vec!["token".to_string()]);
    let settings = ai_settings(None, None, None, false, true);
    assert_eq!(settings.provider, "openai");
    assert!(!settings.api_key_configured);
}

#[test]
fn provider_credentials_are_required() {
    assert_eq!(check_provider_credentials(" ", "m").unwrap_err().code, "ai_api_key_missing");
    assert_eq!(check_provider_credentials("k", " ").unwrap_err().code, "ai_model_missing");
    assert!(check_provider_credentials("k", "m").is_ok());
}

#[test]
fn provider_answers_are_read() {
    let answer = JsonValue::Object(vec![
        ("id".to_string(), text("resp_1")),
        ("model".to_string(), text("gpt-x")),
        (
            "output".to_string(),
            JsonValue::Array(vec![JsonValue::Object(vec![
                ("type".to_string(), text("message")),
                (
                    "content".to_string(),
                    JsonValue::Array(vec![JsonValue::Object(vec![
                        ("type".to_string(), text("output_text")),
                        ("text".to_string(), text("Hello")),
                    ])]),
                ),
            ])]),
        ),
    ]);
    assert_eq!(extract_response_text(&answer).as_deref(), Some("Hello"));
    let response = read_provider_response(200, &answer, "fallback").unwrap();
    assert_eq!(response.output_text, "Hello");
    assert_eq!(response.model, "gpt-x");
    let failed = read_provider_response(500, &JsonValue::Null, "m").unwrap_err();
    assert_eq!(failed.code, "ai_provider_error");
    assert!(failed.message.starts_with("OpenAI returned HTTP 500"));
    let empty = read_provider_response(200, &JsonValue::Object(vec![]), "m").unwrap_err();
    assert_eq!(empty.code, "ai_output_missing");
}
