use api_studio::model::{FlowDetail, FlowSummary, HeaderValue, RequestDetail, ResponseDetail, Timing, SCHEMA_VERSION};
use api_studio::redaction::{redact_flow_detail, redact_saved_request};
use api_studio::workspace::SavedRequest;

#[test]
fn export_redacts_known_secret_headers_even_when_unmarked() {
    let mut detail = FlowDetail {
        summary: FlowSummary::fixture("flow", "GET", "example.test", "/", 200, 1, 0, "1"),
        request: Some(RequestDetail {
            method: "GET".into(),
            url: "https://example.test/".into(),
            scheme: "https".into(),
            host: "example.test".into(),
            port: None,
            path: "/".into(),
            query: None,
            headers: vec![HeaderValue {
                name: "Authorization".into(),
                value: "Bearer private-token".into(),
                sensitive: false,
            }],
            body: None,
        }),
        response: Some(ResponseDetail {
            status_code: 200,
            reason: None,
            headers: vec![HeaderValue {
                name: "Set-Cookie".into(),
                value: "session=private-cookie".into(),
                sensitive: false,
            }],
            body: None,
        }),
        timing: Timing::default(),
        error_code: None,
        error_message: None,
    };
    redact_flow_detail(&mut detail);
    let request_header = &detail.request.unwrap().headers[0];
    let response_header = &detail.response.unwrap().headers[0];
    assert_eq!(request_header.value, "<redacted>");
    assert!(request_header.sensitive);
    assert_eq!(response_header.value, "<redacted>");
    assert!(response_header.sensitive);

    let saved = SavedRequest {
        schema_version: SCHEMA_VERSION,
        id: "request".into(),
        collection_id: "collection".into(),
        name: "API".into(),
        method: "GET".into(),
        url: "https://example.test/".into(),
        headers: vec![HeaderValue {
            name: "X-API-Key".into(),
            value: "private-key".into(),
            sensitive: false,
        }],
        body: None,
        source_flow_id: None,
        sort_order: 0,
        created_at: "1".into(),
        updated_at: "1".into(),
    };
    let saved = redact_saved_request(saved);
    assert_eq!(saved.headers[0].value, "<redacted>");
    assert!(saved.headers[0].sensitive);
}
