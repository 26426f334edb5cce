use api_studio::breakpoints::{
    is_expired, is_stale_decision, list_pending_breakpoints, resolve_breakpoint, safe_id, BreakpointDecisionAction,
    BreakpointDecisionInput, BreakpointStage, PendingBreakpoint,
};

fn pending(id: &str, created_at: &str, deadline: &str) -> PendingBreakpoint {
    PendingBreakpoint {
        schema_version: 1,
        id: id.into(),
        flow_id: "f".into(),
        rule_id: "r".into(),
        rule_name: "Rule".into(),
        stage: BreakpointStage::Request,
        created_at: created_at.into(),
        deadline_at: deadline.into(),
        method: "GET".into(),
        url: "https://a.test/".into(),
        headers: vec![],
        body: None,
        status_code: None,
    }
}

fn decision(id: &str, status: Option<u16>) -> BreakpointDecisionInput {
    BreakpointDecisionInput {
        id: id.into(),
        action: BreakpointDecisionAction::Continue,
        method: None,
        url: None,
        headers: None,
        body: None,
        clear_body: false,
        status_code: status,
    }
}

#[test]
fn decisions_are_filed_under_a_safe_name() {
    assert_eq!(safe_id("../a b_c-1"), "ab_c-1");
    assert_eq!(safe_id(&"x".repeat(200)).len(), 160);
    let (file, document) = resolve_breakpoint(decision("bp/1", Some(204))).unwrap();
    assert_eq!(file, "bp1.json");
    assert_eq!(document.schema_version, 1);
    assert_eq!(document.id, "bp/1");
    assert_eq!(document.status_code, Some(204));
}

#[test]
fn decisions_need_an_id_and_a_valid_status() {
    assert_eq!(resolve_breakpoint(decision(" ", None)).unwrap_err().code, "breakpoint_id_required");
    let error = resolve_breakpoint(decision("bp", Some(700))).unwrap_err();
    assert_eq!(error.code, "breakpoint_status_invalid");
    assert_eq!(error.message, "Breakpoint response status must be between 100 and 599.");
}

#[test]
fn held_exchanges_are_listed_oldest_first() {
    let listed = list_pending_breakpoints(vec![pending("b", "2", "9"), pending("c", "1", "9"), pending("a", "2", "9")]);
    let ids: Vec<&str> = listed.iter().map(|p| p.id.as_str()).collect();
    assert_eq!(ids, vec!["c", "a", "b"]);
}

#[test]
fn expiry_and_staleness() {
    assert!(is_expired(&pending("a", "1", "100"), 100));
    assert!(!is_expired(&pending("a", "1", "101"), 100));
    assert!(!is_expired(&pending("a", "1", "soon"), 100));
    assert!(is_stale_decision(121, 0));
    assert!(is_stale_decision(120, 1));
    assert!(!is_stale_decision(120, 0));
}
