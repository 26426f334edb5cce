use api_studio::inspect::{export_curl, read_body, shell_quote};
use api_studio::model::{BodyRef, FlowDetail, FlowSummary, HeaderValue, RequestDetail, Timing};
use api_studio::replay::{collect_keys_from_text, content_type, is_binary_content_type, is_replayable_header, millis, replay_headers, ReplayError};

#[test]
fn template_keys_are_collected_in_order() {
    assert_eq!(collect_keys_from_text("{{a}}/{{ b }}/{{}}/{{a}}/{{c"), vec!["a".to_string(), "b".to_string(), "a".to_string()]);
    assert!(collect_keys_from_text("no placeholders").is_empty());
}

#[test]
fn connection_headers_are_not_replayed() {
    assert!(!is_replayable_header("Host"));
    assert!(!is_replayable_header("content-length"));
    assert!(is_replayable_header("Accept"));
    assert!(!is_replayable_header("Transfer-Encoding"));
    assert!(!is_replayable_header("Connection"));
    assert!(!is_replayable_header("X-Mobile-API-Studio-Request-Id"));
    assert!(!is_replayable_header("x-mobile-api-studio-request-id"));
    assert!(is_replayable_header("Authorization"));
    let headers = vec![
        HeaderValue { name: "Host".into(), value: "a".into(), sensitive: false },
        HeaderValue { name: "Content-Type".into(), value: "text/plain".into(), sensitive: false },
    ];
    assert_eq!(content_type(&headers).as_deref(), Some("text/plain"));
    let kept = replay_headers(headers);
    assert_eq!(kept.len(), 1);
    assert_eq!(kept[0].name, "Content-Type");
    assert_eq!(millis(u128::MAX), u64::MAX);
    assert_eq!(millis(12), 12);
    assert_eq!(ReplayError::new("replay_url_invalid", "bad", true).code, "replay_url_invalid");
}

#[test]
fn binary_bodies_are_recognized_by_content_type() {
    assert!(is_binary_content_type(None));
    assert!(is_binary_content_type(Some("image/png")));
    assert!(!is_binary_content_type(Some("Application/JSON; charset=utf-8")));
    assert!(!is_binary_content_type(Some("text/html")));
    assert!(!is_binary_content_type(Some("application/x-www-form-urlencoded")));
}

#[test]
fn shell_words_are_single_quoted() {
    assert_eq!(shell_quote(""), "''");
    assert_eq!(shell_quote("it's"), "'it'\"'\"'s'");
}

#[test]
fn bodies_show_as_text_or_base64() {
    let text = read_body("s".into(), b"hi".to_vec());
    assert_eq!(text.text.as_deref(), Some("hi"));
    let binary = read_body("s".into(), vec![0xff]);
    assert_eq!(binary.text, None);
    assert_eq!(binary.base64.as_deref(), Some("/w=="));
}

#[test]
fn captured_requests_export_as_curl() {
    let detail = FlowDetail {
        summary: FlowSummary::fixture("flow", "POST", "api.test", "/items", 201, 1, 0, "1"),
        request: Some(RequestDetail {
            method: "POST".into(),
            url: "https://api.test/items".into(),
            scheme: "https".into(),
            host: "api.test".into(),
            port: None,
            path: "/items".into(),
            query: None,
            headers: vec![
                HeaderValue { name: "Authorization".into(), value: "Bearer x".into(), sensitive: true },
                HeaderValue { name: "x-mobile-api-studio-request-id".into(), value: "r1".into(), sensitive: false },
                HeaderValue { name: "Accept".into(), value: "*/*".into(), sensitive: false },
            ],
            body: Some(BodyRef {
                sha256: "d".into(),
                byte_size: 8,
                content_type: None,
                encoding: None,
                is_binary: false,
                is_truncated: false,
            }),
        }),
        response: None,
        timing: Timing::default(),
        error_code: None,
        error_message: None,
    };
    let command = export_curl(Some(detail), Some(b"{\"a\":'1'}".to_vec())).unwrap();
    assert_eq!(
        command,
        "curl --request 'POST' 'https://api.test/items' --header 'Authorization: <redacted>' --header 'Accept: */*' --data-raw '{\"a\":'\"'\"'1'\"'\"'}'"
    );
    assert_eq!(export_curl(None, None).unwrap_err().code, "flow_detail_missing");
}
