use api_studio::compare::{
    compare_json_shape, compare_query, compare_sessions, diagnose_session, percent_decode, signed_delta, ComparableBody,
    ComparableFlow, DifferenceKind, Presence, SessionSnapshot,
};
use api_studio::json::JsonValue;
use api_studio::model::{CaptureSession, FlowDetail, FlowSummary, SessionStatus, Timing, SCHEMA_VERSION};

fn flow(id: &str, method: &str, path: &str, status: u16, started_at: &str, duration: u64) -> ComparableFlow {
    ComparableFlow {
        detail: FlowDetail {
            summary: FlowSummary::fixture(id, method, "api.test", path, status, duration, 10, started_at),
            request: None,
            response: None,
            timing: Timing::default(),
            error_code: None,
            error_message: None,
        },
        request_body: None,
        response_body: Some(ComparableBody {
            content_type: Some("application/json".into()),
            text: Some("{\"id\":1}".into()),
            byte_size: 8,
            truncated: false,
        }),
        app_context: None,
    }
}

fn snapshot(id: &str, flows: Vec<ComparableFlow>) -> SessionSnapshot {
    SessionSnapshot {
        session: CaptureSession {
            schema_version: SCHEMA_VERSION,
            id: id.into(),
            name: id.into(),
            status: SessionStatus::Completed,
            started_at: "1".into(),
            ended_at: None,
            device_id: None,
            app_id: None,
            connection_strategy: None,
            capture_engine: None,
            notes: None,
        },
        flows,
    }
}

#[test]
fn a_session_compared_with_itself_shows_no_change() {
    let s = snapshot(
        "s",
        vec![
            flow("a", "GET", "/users/1", 200, "1", 10),
            flow("b", "GET", "/users/2", 200, "2", 12),
            flow("c", "POST", "/login", 401, "3", 5),
        ],
    );
    let comparison = compare_sessions(s.clone(), s);
    assert_eq!(comparison.summary.changed_calls, 0);
    assert_eq!(comparison.summary.baseline_only_calls, 0);
    assert_eq!(comparison.summary.candidate_only_calls, 0);
    assert_eq!(comparison.summary.matched_calls, 3);
    for endpoint in &comparison.endpoints {
        for call in &endpoint.calls {
            assert_eq!(call.presence, Presence::Both);
            assert!(!call.changed);
        }
    }
}

#[test]
fn added_and_removed_calls_are_reported() {
    let baseline = snapshot("b", vec![flow("a", "GET", "/users/1", 200, "1", 10)]);
    let candidate = snapshot("c", vec![flow("x", "GET", "/users/9", 500, "1", 40), flow("y", "DELETE", "/items/3", 204, "2", 3)]);
    let comparison = compare_sessions(baseline, candidate);
    assert_eq!(comparison.summary.matched_calls, 1);
    assert_eq!(comparison.summary.candidate_only_calls, 1);
    assert_eq!(comparison.endpoints.len(), 2);
}

#[test]
fn json_shapes_are_compared_by_path_and_type() {
    let left = JsonValue::Object(vec![("id".to_string(), JsonValue::Number("1".into())), ("name".to_string(), JsonValue::String("a".into()))]);
    let right = JsonValue::Object(vec![("id".to_string(), JsonValue::String("1".into())), ("email".to_string(), JsonValue::Null)]);
    let shape = compare_json_shape(&left, &right);
    assert_eq!(shape.added_paths, vec!["/email".to_string()]);
    assert_eq!(shape.removed_paths, vec!["/name".to_string()]);
    assert_eq!(shape.type_changes.len(), 1);
    assert_eq!(shape.type_changes[0].pointer, "/id");
    assert!(compare_json_shape(&left, &left).is_empty());
}

#[test]
fn query_values_are_form_decoded() {
    assert_eq!(percent_decode("a%20b+c%zz"), "a b c%zz");
    assert_eq!(percent_decode("%ff"), "\u{fffd}");
    let changes = compare_query(&Some("q=a&page=1".into()), &Some("q=b&page=1".into()));
    let q = changes.iter().find(|d| d.name == "q").unwrap();
    assert_eq!(q.kind, DifferenceKind::Changed);
}

#[test]
fn timing_deltas_are_signed() {
    assert_eq!(signed_delta(Some(30), Some(10)), Some(20));
    assert_eq!(signed_delta(Some(10), Some(30)), Some(-20));
    assert_eq!(signed_delta(None, Some(30)), None);
}

#[test]
fn diagnostics_find_duplicates_and_errors() {
    let s = snapshot(
        "s",
        vec![
            flow("a", "GET", "/users/1", 200, "1000", 10),
            flow("b", "GET", "/users/1", 200, "1200", 12),
            flow("c", "POST", "/login", 500, "3000", 900),
        ],
    );
    let diagnostics = diagnose_session(&s);
    assert_eq!(diagnostics.duplicates.len(), 1);
    assert_eq!(diagnostics.duplicates[0].call_count, 2);
    assert_eq!(diagnostics.errors.len(), 1);
    assert_eq!(diagnostics.slowest[0].flow_id, "c");
}
