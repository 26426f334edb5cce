use api_studio::model::{BodyRef, FlowDetail, FlowSummary, HeaderValue, ResponseDetail, Timing};
use api_studio::mocks::{
    body_override, create_fixture_from_flow, create_mock_from_flow, sanitize_name, upsert_mock_fixture, upsert_mock_rule,
    MockBodyEncoding, MockBodyOverride, MockFailureMode, MockFixture, MockPathMatch, MockRule, MockRulesDocument,
};

fn rule(id: &str, priority: i64, created_at: &str, enabled: bool) -> MockRule {
    MockRule {
        schema_version: 1,
        id: id.into(),
        name: "Users".into(),
        enabled,
        priority,
        method: Some("get".into()),
        host: Some("API.example.test".into()),
        path_pattern: "/users/:id".into(),
        path_match: MockPathMatch::Normalized,
        status_code: Some(200),
        response_headers: vec![],
        response_body: None,
        json_mutations: vec![],
        latency_ms: None,
        failure_mode: MockFailureMode::NoFailure,
        request_breakpoint: false,
        response_breakpoint: false,
        source_flow_id: None,
        created_at: created_at.into(),
        updated_at: created_at.into(),
    }
}

#[test]
fn rules_match_method_host_and_template() {
    let plain = FlowSummary::fixture("f", "GET", "api.example.test", "/users/42", 200, 1, 0, "1");
    assert!(rule("r", 0, "1", true).matches_flow(&plain));
    assert!(!rule("r", 0, "1", false).matches_flow(&plain));
    let flow = FlowSummary::fixture("f", "GET", "api.example.test", "/users/42?expand=1", 200, 1, 0, "1");
    let mut exact = rule("r", 0, "1", true);
    exact.path_match = MockPathMatch::Exact;
    exact.path_pattern = "/users/42".into();
    assert!(exact.matches_flow(&flow));
    exact.method = Some("POST".into());
    assert!(!exact.matches_flow(&flow));
}

#[test]
fn active_rules_are_enabled_and_ordered() {
    let document = MockRulesDocument::active(
        vec![
            rule("c", 2, "1", true),
            rule("b", 1, "5", true),
            rule("off", 0, "0", false),
            rule("a", 1, "5", true),
            rule("d", 1, "3", true),
        ],
        true,
    );
    let ids: Vec<&str> = document.rules.iter().map(|r| r.id.as_str()).collect();
    assert_eq!(ids, vec!["d", "a", "b", "c"]);
    assert!(document.enabled);
    assert_eq!(document.schema_version, 1);
}

fn fixture(name: &str, status: u16, body: Option<MockBodyOverride>) -> MockFixture {
    MockFixture {
        schema_version: 1,
        id: "fx".into(),
        name: name.into(),
        status_code: status,
        response_headers: vec![],
        response_body: body,
        source_flow_id: None,
        created_at: "1".into(),
        updated_at: "1".into(),
    }
}

#[test]
fn fixtures_are_checked_before_they_are_stored() {
    assert!(upsert_mock_fixture(&fixture("Users", 200, None)).is_ok());
    assert_eq!(upsert_mock_fixture(&fixture("  ", 200, None)).unwrap_err().code, "mock_fixture_name_required");
    assert_eq!(upsert_mock_fixture(&fixture("Users", 99, None)).unwrap_err().code, "mock_fixture_status_invalid");
    let bad = MockBodyOverride { content_type: None, encoding: MockBodyEncoding::Base64, data: "not base64!".into() };
    let error = upsert_mock_fixture(&fixture("Users", 200, Some(bad))).unwrap_err();
    assert_eq!(error.code, "mock_fixture_body_invalid_base64");
    assert!(error.message.starts_with("Fixture body is not valid base64: "));
    let good = MockBodyOverride { content_type: None, encoding: MockBodyEncoding::Base64, data: "aGk=".into() };
    assert!(upsert_mock_fixture(&fixture("Users", 200, Some(good))).is_ok());
}

#[test]
fn rules_are_checked_before_they_are_stored() {
    assert!(upsert_mock_rule(&rule("r", 0, "1", true)).is_ok());
    let mut blank = rule("r", 0, "1", true);
    blank.path_pattern = " ".into();
    assert_eq!(upsert_mock_rule(&blank).unwrap_err().code, "mock_rule_path_required");
    let mut status = rule("r", 0, "1", true);
    status.status_code = Some(600);
    assert_eq!(upsert_mock_rule(&status).unwrap_err().code, "mock_rule_status_invalid");
}

fn body_ref(binary: bool, truncated: bool) -> BodyRef {
    BodyRef {
        sha256: "abc".into(),
        byte_size: 2,
        content_type: Some("application/json".into()),
        encoding: None,
        is_binary: binary,
        is_truncated: truncated,
    }
}

#[test]
fn bodies_become_text_or_base64() {
    let text = body_override(&body_ref(false, false), b"hi".to_vec());
    assert_eq!(text.encoding, MockBodyEncoding::Text);
    assert_eq!(text.data, "hi");
    let binary = body_override(&body_ref(true, false), b"hi".to_vec());
    assert_eq!(binary.encoding, MockBodyEncoding::Base64);
    assert_eq!(binary.data, "aGk=");
    let invalid = body_override(&body_ref(false, false), vec![0xff, 0xfe]);
    assert_eq!(invalid.encoding, MockBodyEncoding::Base64);
    assert_eq!(invalid.data, "//4=");
}

fn detail(body: Option<BodyRef>) -> FlowDetail {
    FlowDetail {
        summary: FlowSummary::fixture("flow", "GET", "api.example.test", "/users/42", 200, 1, 0, "1"),
        request: None,
        response: Some(ResponseDetail {
            status_code: 201,
            reason: None,
            headers: vec![
                HeaderValue { name: "Content-Type".into(), value: "application/json".into(), sensitive: false },
                HeaderValue { name: "Content-Length".into(), value: "2".into(), sensitive: false },
                HeaderValue { name: "Set-Cookie".into(), value: "s=1".into(), sensitive: true },
            ],
            body,
        }),
        timing: Timing::default(),
        error_code: None,
        error_message: None,
    }
}

#[test]
fn fixtures_keep_safe_headers_of_the_response() {
    let fixture =
        create_fixture_from_flow(&detail(Some(body_ref(false, false))), "flow", None, "fixture-1", "9", Some(b"{}".to_vec()))
            .unwrap();
    assert_eq!(fixture.name, "GET api.example.test/users/42");
    assert_eq!(fixture.status_code, 201);
    assert_eq!(fixture.response_headers.len(), 1);
    assert_eq!(fixture.response_headers[0].name, "Content-Type");
    assert_eq!(fixture.response_body.unwrap().data, "{}");
    let named = create_fixture_from_flow(&detail(None), "flow", Some("  Mine "), "fixture-1", "9", None).unwrap();
    assert_eq!(named.name, "Mine");
    let truncated = create_fixture_from_flow(&detail(Some(body_ref(false, true))), "flow", None, "x", "9", None);
    assert_eq!(truncated.unwrap_err().code, "fixture_body_truncated");
    let mut no_response = detail(None);
    no_response.response = None;
    assert_eq!(create_fixture_from_flow(&no_response, "flow", None, "x", "9", None).unwrap_err().code, "fixture_response_missing");
}

#[test]
fn mocks_made_from_flows_match_their_endpoint() {
    let rule = create_mock_from_flow(&detail(None), "flow", 3, "mock-1", "9", None).unwrap();
    assert_eq!(rule.name, "GET api.example.test/users/:id");
    assert_eq!(rule.priority, 3);
    assert_eq!(rule.status_code, Some(201));
    assert!(rule.matches_flow(&FlowSummary::fixture("g", "GET", "api.example.test", "/users/7", 200, 1, 0, "2")));
}

#[test]
fn names_are_trimmed_and_cut() {
    assert_eq!(sanitize_name(Some("  x  "), "fallback"), "x");
    assert_eq!(sanitize_name(None, "fallback"), "fallback");
    assert_eq!(sanitize_name(Some(&"y".repeat(200)), "f").chars().count(), 120);
}
