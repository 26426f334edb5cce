use api_studio::ingestion::{find_header_end, parse_request_head, route_request, IngestionRoute};
use api_studio::model::{FlowDetail, FlowSummary, HeaderValue, RequestDetail, Timing};
use api_studio::sdk::{SdkContextSnapshot, SdkEnvelope, SdkEvent, SdkNetworkEvent, SdkNetworkPhase};
use api_studio::sdk_links::{correlation_id, nearby_events_source, sdk_flow_ids_matching, sdk_setup_info};
use api_studio::storage::SdkClientRecord;
use api_studio::sdk::SdkPlatform;

fn client(id: &str, last_seen: &str) -> SdkClientRecord {
    SdkClientRecord {
        client_id: id.into(),
        app_id: "com.example".into(),
        app_name: "Example".into(),
        app_version: None,
        app_build: None,
        platform: SdkPlatform::Android,
        device_name: None,
        os_version: None,
        sdk_version: "1".into(),
        first_seen_at: "1".into(),
        last_seen_at: last_seen.into(),
    }
}

#[test]
fn setup_reports_recent_clients() {
    let info = sdk_setup_info(&vec![client("a", "80000"), client("b", "100000"), client("c", "later")], "100000", true);
    assert_eq!(info.port, 8182);
    assert_eq!(info.ios_base_url, "http://127.0.0.1:8182");
    assert_eq!(info.android_base_url, "http://10.0.2.2:8182");
    assert_eq!(info.known_client_count, 3);
    assert_eq!(info.active_client_count, 1);
    assert_eq!(info.latest_seen_at.as_deref(), Some("100000"));
    assert!(info.ingestion_reachable);
    assert_eq!(sdk_setup_info(&vec![], "1", false).latest_seen_at, None);
}

fn network(request_id: &str) -> SdkEnvelope {
    SdkEnvelope {
        schema_version: 1,
        event_id: format!("evt-{request_id}"),
        occurred_at: "1".into(),
        event: SdkEvent::Network(SdkNetworkEvent {
            client_id: "client".into(),
            request_id: request_id.into(),
            phase: SdkNetworkPhase::Completed,
            method: "GET".into(),
            url: "https://a.test/".into(),
            status_code: Some(200),
            duration_ms: Some(1),
            error: None,
            context: SdkContextSnapshot::default(),
        }),
    }
}

#[test]
fn flows_are_found_through_their_correlation_header() {
    let events = vec![network("r1"), network("r3")];
    let flows = vec![
        ("f1".to_string(), Some("r1".to_string())),
        ("f2".to_string(), Some("r2".to_string())),
        ("f3".to_string(), None),
        ("f4".to_string(), Some("r3".to_string())),
    ];
    assert_eq!(sdk_flow_ids_matching("login", &events, &flows, None), vec!["f1".to_string(), "f4".to_string()]);
    assert_eq!(sdk_flow_ids_matching("login", &events, &flows, Some(1)), vec!["f1".to_string()]);
    assert!(sdk_flow_ids_matching("  ", &events, &flows, None).is_empty());
}

#[test]
fn correlation_ids_come_from_request_headers() {
    let detail = FlowDetail {
        summary: FlowSummary::fixture("f", "GET", "a.test", "/", 200, 1, 0, "5000"),
        request: Some(RequestDetail {
            method: "GET".into(),
            url: "https://a.test/".into(),
            scheme: "https".into(),
            host: "a.test".into(),
            port: None,
            path: "/".into(),
            query: None,
            headers: vec![HeaderValue { name: "x-mobile-api-studio-request-id".into(), value: "r1".into(), sensitive: false }],
            body: None,
        }),
        response: None,
        timing: Timing::default(),
        error_code: None,
        error_message: None,
    };
    assert_eq!(correlation_id(&Some(detail.clone())).as_deref(), Some("r1"));
    assert_eq!(correlation_id(&None), None);
    let (client_id, around) = nearby_events_source(&detail.summary, &vec![network("r1")]).unwrap();
    assert_eq!(client_id, "client");
    assert_eq!(around, 5000);
    assert!(nearby_events_source(&detail.summary, &vec![]).is_none());
}

#[test]
fn ingestion_requests_are_parsed_and_routed() {
    let raw = b"post /v1/events?x=1 HTTP/1.1\r\nHost: 127.0.0.1\r\nContent-Length: 12\r\n\r\n{\"a\":1}";
    let end = find_header_end(raw).unwrap();
    let head = parse_request_head(&raw[..end]).unwrap();
    assert_eq!(head.method, "POST");
    assert_eq!(head.path, "/v1/events");
    assert_eq!(head.content_length, 12);
    assert!(matches!(route_request("POST", "/v1/events"), IngestionRoute::Events));
    assert!(matches!(route_request("GET", "/health"), IngestionRoute::Health));
    assert!(matches!(route_request("GET", "/v1/events"), IngestionRoute::NotFound));
    let invalid = parse_request_head(b"GET\r\nHost: x").unwrap_err();
    assert_eq!(invalid.code, "sdk_http_request_line_invalid");
}
