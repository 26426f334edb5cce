use api_studio::interpolation::VariableMap;
use api_studio::model::{AppError, BodyRef, FlowDetail, FlowSource, FlowSummary, HeaderValue, RequestDetail, Timing};
use api_studio::replay_requests::{
    body_from_draft, build_header_drafts, collect_template_keys, create_replay_draft, interpolate_replay_request,
    replay_bodies, replay_environment_values, replay_flow_detail, replay_source, resolve_flow_request, resolve_headers,
    resolve_saved_request, saved_body_bytes, ReplayBodyDraft, ReplayEditDraft, ReplayExecution, ReplayHeaderDraft,
    ReplayRequest, ReplaySource,
};
use api_studio::workspace::{EnvironmentVariable, SavedRequest, SavedRequestBody};

fn header(name: &str, value: &str, sensitive: bool) -> HeaderValue {
    HeaderValue { name: name.into(), value: value.into(), sensitive }
}

fn body_ref(binary: bool, truncated: bool) -> BodyRef {
    BodyRef {
        sha256: "abc".into(),
        byte_size: 2,
        content_type: Some("application/json".into()),
        encoding: None,
        is_binary: binary,
        is_truncated: truncated,
    }
}

fn request(body: Option<BodyRef>) -> RequestDetail {
    RequestDetail {
        method: "post".into(),
        url: "https://api.test/login".into(),
        scheme: "https".into(),
        host: "api.test".into(),
        port: None,
        path: "/login".into(),
        query: None,
        headers: vec![header("Authorization", "Bearer t", true), header("Accept", "*/*", false)],
        body,
    }
}

fn detail(body: Option<BodyRef>) -> FlowDetail {
    FlowDetail {
        summary: FlowSummary::fixture("f1", "POST", "api.test", "/login", 200, 1, 1, "1"),
        request: Some(request(body)),
        response: None,
        timing: Timing::default(),
        error_code: None,
        error_message: None,
    }
}

fn error_of<T>(result: Result<T, AppError>) -> AppError {
    match result {
        Ok(_) => panic!("expected an error"),
        Err(error) => error,
    }
}

fn ok<T>(result: Result<T, AppError>) -> T {
    match result {
        Ok(value) => value,
        Err(error) => panic!("{}: {}", error.code, error.message),
    }
}

#[test]
fn drafts_hide_sensitive_values() {
    let drafts = build_header_drafts(&request(None).headers);
    assert_eq!(drafts[0].value, None);
    assert!(drafts[0].use_original && drafts[0].sensitive);
    assert_eq!(drafts[1].value.as_deref(), Some("*/*"));
    assert_eq!(drafts[1].source_index, Some(1));
    assert!(matches!(replay_source("saved:q1"), ReplaySource::Saved(id) if id == "q1"));
    assert!(matches!(replay_source("f1"), ReplaySource::Flow(id) if id == "f1"));

    let draft = ok(create_replay_draft("f1", Some(detail(Some(body_ref(false, false)))), Some(b"{}".to_vec()), None));
    assert_eq!(draft.source_flow_id, "f1");
    let body = draft.body.unwrap();
    assert_eq!(body.text.as_deref(), Some("{}"));
    assert!(body.use_original && !body.is_binary);
    let binary = ok(create_replay_draft("f1", Some(detail(Some(body_ref(true, true)))), Some(vec![0xff, 0]), None));
    let body = binary.body.unwrap();
    assert_eq!(body.base64.as_deref(), Some("/wA="));
    assert!(!body.use_original && body.source_truncated);
    assert_eq!(error_of(create_replay_draft("f1", None, None, None)).code, "flow_detail_missing");
    let mut no_request = detail(None);
    no_request.request = None;
    assert_eq!(error_of(create_replay_draft("f1", Some(no_request), None, None)).code, "replay_request_missing");
    assert_eq!(error_of(create_replay_draft("saved:q1", None, None, None)).code, "saved_request_missing");
    let saved = SavedRequest {
        schema_version: 1,
        id: "q1".into(),
        collection_id: "c1".into(),
        name: "Login".into(),
        method: "POST".into(),
        url: "https://api.test/login".into(),
        headers: vec![header("Accept", "*/*", false)],
        body: Some(SavedRequestBody { text: Some("{}".into()), base64: None, is_binary: false, content_type: None }),
        source_flow_id: None,
        sort_order: 0,
        created_at: "1".into(),
        updated_at: "1".into(),
    };
    let from_saved = ok(create_replay_draft("saved:q1", None, None, Some(saved.clone())));
    assert_eq!(from_saved.source_flow_id, "saved:q1");
    assert!(from_saved.body.unwrap().use_original);
    let resolved = ok(resolve_saved_request(&ok(create_replay_draft("saved:q1", None, None, Some(saved.clone()))), &saved));
    assert_eq!(resolved.body, Some(b"{}".to_vec()));
    assert_eq!(resolved.method, "POST");
}

fn draft(headers: Vec<ReplayHeaderDraft>, body: Option<ReplayBodyDraft>) -> ReplayEditDraft {
    ReplayEditDraft { source_flow_id: "f1".into(), method: " post ".into(), url: " https://api.test/login ".into(), headers, body }
}

fn original(index: Option<usize>) -> ReplayHeaderDraft {
    ReplayHeaderDraft { name: "Authorization".into(), value: None, sensitive: true, use_original: true, enabled: true, source_index: index }
}

fn edited(name: &str, value: &str) -> ReplayHeaderDraft {
    ReplayHeaderDraft { name: name.into(), value: Some(value.into()), sensitive: false, use_original: false, enabled: true, source_index: None }
}

#[test]
fn drafts_resolve_to_requests() {
    let source = request(Some(body_ref(false, false)));
    let mut off = edited("X-Off", "1");
    off.enabled = false;
    let d = draft(vec![original(Some(0)), edited("Cookie", "a=b"), off, edited("Content-Type", "text/plain")], None);
    let headers = ok(resolve_headers(&d, &source.headers));
    assert_eq!(headers.len(), 3);
    assert_eq!(headers[0].value, "Bearer t");
    assert!(headers[1].sensitive);
    let missing = error_of(resolve_headers(&draft(vec![original(None)], None), &source.headers));
    assert_eq!(missing.code, "replay_header_source_missing");
    assert_eq!(missing.message, "Header 'Authorization' has no stored source value.");
    let gone = error_of(resolve_headers(&draft(vec![original(Some(7))], None), &source.headers));
    assert_eq!(gone.message, "Stored source header 'Authorization' is no longer available.");

    let kept = ReplayBodyDraft { text: None, base64: None, is_binary: false, content_type: None, use_original: true, source_truncated: false };
    let request = ok(resolve_flow_request(&draft(vec![edited("Accept", "*/*")], Some(kept.clone())), &source, Some(b"{}".to_vec())));
    assert_eq!(request.method, "POST");
    assert_eq!(request.url, "https://api.test/login");
    assert_eq!(request.body, Some(b"{}".to_vec()));
    assert_eq!(request.content_type.as_deref(), Some("application/json"));
    let mut truncated = kept.clone();
    truncated.source_truncated = true;
    assert_eq!(error_of(resolve_flow_request(&draft(vec![], Some(truncated)), &source, None)).code, "replay_body_truncated");
    let no_body = request_without_body();
    assert_eq!(error_of(resolve_flow_request(&draft(vec![], Some(kept)), &no_body, None)).code, "replay_body_source_missing");
    let typed = ok(resolve_flow_request(&d, &source, None));
    assert_eq!(typed.content_type.as_deref(), Some("text/plain"));

    let bad = ReplayBodyDraft { text: None, base64: Some("***".into()), is_binary: true, content_type: None, use_original: false, source_truncated: false };
    let error = error_of(body_from_draft(&bad));
    assert_eq!(error.code, "replay_body_invalid_base64");
    assert!(error.message.starts_with("Binary replay body is not valid base64: "));
    let good = ReplayBodyDraft { base64: Some("/wA=".into()), ..bad };
    assert_eq!(ok(body_from_draft(&good)).0, Some(vec![0xff, 0]));
    let saved = SavedRequestBody { text: None, base64: Some("%%".into()), is_binary: true, content_type: None };
    assert_eq!(error_of(saved_body_bytes(&saved)).code, "saved_request_body_invalid");
}

fn request_without_body() -> RequestDetail {
    request(None)
}

fn template() -> ReplayRequest {
    ReplayRequest {
        source_flow_id: "f1".into(),
        method: "POST".into(),
        url: "https://{{host}}/login".into(),
        headers: vec![header("Authorization", "Bearer {{token}}", false), header("Accept", "*/*", false)],
        body: Some(b"{\"user\":\"{{user}}\"}".to_vec()),
        content_type: Some("application/json".into()),
        body_is_binary: false,
    }
}

fn variable(key: &str, value: &str, secret: bool) -> EnvironmentVariable {
    EnvironmentVariable {
        schema_version: 1,
        id: key.into(),
        environment_id: "e1".into(),
        key: key.into(),
        value: Some(value.into()),
        is_secret: secret,
        secret_ref: None,
        enabled: true,
        sort_order: 0,
    }
}

#[test]
fn environments_fill_replays() {
    let keys = collect_template_keys(&template());
    assert_eq!(keys, vec!["host".to_string(), "token".to_string(), "user".to_string()]);
    let values = ok(replay_environment_values(
        &vec![variable("host", "api.test", false), variable("token", "t", false), variable("user", "ana", false), variable("unused", "x", false)],
        &keys,
    ));
    let (sent, recorded, secret_url) = ok(interpolate_replay_request(template(), &values));
    assert_eq!(sent.url, "https://api.test/login");
    assert_eq!(sent.headers[0].value, "Bearer t");
    assert_eq!(sent.body, Some(b"{\"user\":\"ana\"}".to_vec()));
    assert_eq!(recorded.url, "https://api.test/login");
    assert!(!secret_url);

    let mut secrets = VariableMap::new();
    secrets.insert("host".into(), "api.test".into(), true);
    secrets.insert("token".into(), "t".into(), true);
    secrets.insert("user".into(), "ana".into(), false);
    let (sent, recorded, secret_url) = ok(interpolate_replay_request(template(), &secrets));
    assert!(secret_url);
    assert_eq!(sent.url, "https://api.test/login");
    assert_eq!(recorded.url, "https://{{host}}/login");
    assert_eq!(recorded.headers[0].value, "Bearer {{token}}");
    assert!(recorded.headers[0].sensitive);
    assert_eq!(recorded.body, Some(b"{\"user\":\"ana\"}".to_vec()));

    let missing = error_of(interpolate_replay_request(template(), &VariableMap::new()));
    assert_eq!(missing.code, "environment_variables_missing");
    let mut plain = template();
    plain.url = "https://api.test/{{ }}".into();
    plain.headers = vec![];
    plain.body = None;
    let (same, kept, _) = ok(interpolate_replay_request(plain, &VariableMap::new()));
    assert_eq!(same.url, "https://api.test/{{ }}");
    assert_eq!(kept.url, "https://api.test/{{ }}");

    let mut secret = variable("token", "", true);
    secret.secret_ref = Some("env:e1:token".into());
    assert_eq!(error_of(replay_environment_values(&vec![secret], &keys)).code, "secure_store_unsupported");
}

#[test]
fn replays_are_recorded_without_secret_urls() {
    let recorded = template();
    let execution = ReplayExecution {
        scheme: "https".into(),
        host: "api.test".into(),
        port: Some(443),
        path: "/login".into(),
        query: Some("a=1".into()),
        status_code: 201,
        reason: Some("Created".into()),
        response_headers: vec![header("Content-Type", "image/png", false)],
        response_body: vec![1, 2, 3],
        response_content_type: Some("image/png".into()),
        response_body_truncated: false,
        total_ms: 42,
        started_at: "99".into(),
    };
    let (request_body, response_body) = replay_bodies(&recorded, &execution);
    assert_eq!(request_body, Some((Some("application/json".into()), false, false)));
    assert_eq!(response_body, Some((Some("image/png".into()), true, false)));
    let detail = replay_flow_detail("replay-1".into(), Some("s1".into()), recorded.clone(), execution.clone(), true, None, None);
    assert_eq!(detail.summary.source, FlowSource::Replay);
    assert_eq!(detail.summary.host, "<templated-host>");
    assert_eq!(detail.summary.path, "<templated-path>");
    assert_eq!(detail.summary.response_size_bytes, Some(3));
    let request = detail.request.unwrap();
    assert_eq!(request.port, None);
    assert_eq!(request.query, None);
    assert_eq!(detail.timing.total_ms, Some(42));
    let open = replay_flow_detail("replay-2".into(), None, recorded, execution, false, None, None);
    assert_eq!(open.summary.host, "api.test");
    assert_eq!(open.request.unwrap().query.as_deref(), Some("a=1"));
}
