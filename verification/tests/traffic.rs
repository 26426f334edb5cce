use api_studio::model::{CaptureSession, FlowSource, FlowSummary, SessionStatus, SCHEMA_VERSION};
use api_studio::traffic::{search_traffic, TrafficSearchQuery};

fn session(id: &str, name: &str) -> CaptureSession {
    CaptureSession {
        schema_version: SCHEMA_VERSION,
        id: id.into(),
        name: name.into(),
        status: SessionStatus::Completed,
        started_at: "1".into(),
        ended_at: None,
        device_id: None,
        app_id: None,
        connection_strategy: None,
        capture_engine: None,
        notes: None,
    }
}

fn flow(id: &str, session: &str, method: &str, path: &str, status: u16) -> FlowSummary {
    let mut f = FlowSummary::fixture(id, method, "api.test", path, status, 1, 0, "1");
    f.session_id = Some(session.into());
    f.source = FlowSource::Proxy;
    f
}

fn empty_query() -> TrafficSearchQuery {
    TrafficSearchQuery {
        text: None,
        session_id: None,
        method: None,
        source: None,
        status_class: None,
        endpoint_key: None,
        limit: None,
    }
}

fn flows() -> Vec<FlowSummary> {
    vec![
        flow("f1", "s1", "GET", "/users/42", 200),
        flow("f2", "s1", "post", "/users", 201),
        flow("f3", "s2", "GET", "/orders/7", 404),
        flow("f4", "s2", "GET", "/users/43", 500),
    ]
}

fn sessions() -> Vec<CaptureSession> {
    vec![session("s1", "Login run"), session("s2", "Checkout")]
}

fn ids(query: &TrafficSearchQuery) -> Vec<String> {
    search_traffic(flows(), sessions(), query).into_iter().map(|r| r.flow.id).collect()
}

#[test]
fn traffic_search_filters_in_order() {
    assert_eq!(ids(&empty_query()), vec!["f1", "f2", "f3", "f4"]);
    let mut q = empty_query();
    q.method = Some(" POST ".into());
    assert_eq!(ids(&q), vec!["f2"]);
    let mut q = empty_query();
    q.status_class = Some(4);
    assert_eq!(ids(&q), vec!["f3"]);
    let mut q = empty_query();
    q.session_id = Some("s2".into());
    assert_eq!(ids(&q), vec!["f3", "f4"]);
    let mut q = empty_query();
    q.text = Some("  CHECKOUT ".into());
    assert_eq!(ids(&q), vec!["f3", "f4"]);
    let mut q = empty_query();
    q.text = Some(":ID".into());
    assert_eq!(ids(&q), vec!["f1", "f3", "f4"]);
    let mut q = empty_query();
    q.text = Some("   ".into());
    q.limit = Some(0);
    assert_eq!(ids(&q), vec!["f1"]);
    let mut q = empty_query();
    q.source = Some(FlowSource::Replay);
    assert!(ids(&q).is_empty());
}

#[test]
fn traffic_results_carry_endpoint_and_session_name() {
    let mut q = empty_query();
    q.endpoint_key = Some("GET api.test/users/:id".into());
    let results = search_traffic(flows(), sessions(), &q);
    assert_eq!(results.len(), 2);
    assert_eq!(results[0].flow.id, "f1");
    assert_eq!(results[0].endpoint.path_template, "/users/:id");
    assert_eq!(results[0].session_name.as_deref(), Some("Login run"));
    assert_eq!(results[1].session_name.as_deref(), Some("Checkout"));
}
