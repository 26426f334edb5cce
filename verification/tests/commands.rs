use api_studio::assistant::{set_ai_settings, AiSettingsInput};
use api_studio::breakpoints::{clear_stale_breakpoints, BreakpointStage, PendingBreakpoint};
use api_studio::capture::{bridge_parse_failure, bridge_payload, publish_bridge_event, BridgeEvent, CaptureEvent};
use api_studio::compare::{ComparableFlow, SessionDiagnostics};
use api_studio::devices::IosDeviceProvider;
use api_studio::model::{
    AppError, FlowSource, CaptureSession, FlowDetail, FlowSummary, HeaderValue, RequestDetail, SessionStatus, Timing,
};
use api_studio::records::SET_PREFERENCE_SQL;
use api_studio::sdk::{
    SdkContextSnapshot, SdkEnvelope, SdkEvent, SdkNetworkEvent, SdkNetworkPhase, SdkPlatform, SdkSourceLocation,
};
use api_studio::sdk_links::{
    last_network_event, list_sdk_clients, list_sdk_events, sdk_context_for_detail, sdk_enrichment_for_flow, search_sdk_events,
};
use api_studio::secret::SecretStore;
use api_studio::snapshots::{build_snapshot, order_by_start, session_diagnostics};
use api_studio::storage::{
    Database, SdkClientRecord, SdkDatabase, SqlValue, EVENTS_FOR_CLIENT_SQL, LIST_CLIENTS_SQL, SEARCH_EVENTS_SQL,
};

fn pending(id: &str, deadline: &str) -> PendingBreakpoint {
    PendingBreakpoint {
        schema_version: 1,
        id: id.into(),
        flow_id: "f".into(),
        rule_id: "r".into(),
        rule_name: "Rule".into(),
        stage: BreakpointStage::Response,
        created_at: "1".into(),
        deadline_at: deadline.into(),
        method: "GET".into(),
        url: "https://a.test/".into(),
        headers: vec![],
        body: None,
        status_code: None,
    }
}

#[test]
fn stale_breakpoint_files_are_chosen_for_removal() {
    let files = vec![Some(pending("a", "100")), None, Some(pending("b", "300")), Some(pending("c", "soon")), Some(pending("d", "200"))];
    let ages = vec![Some((121, 0)), Some((120, 0)), None, Some((120, 1)), Some((5, 999))];
    let (pending_files, decision_files) = clear_stale_breakpoints(&files, &ages, 200);
    assert_eq!(pending_files, vec![0, 4]);
    assert_eq!(decision_files, vec![0, 3]);
    let (none, nothing) = clear_stale_breakpoints(&vec![], &vec![], 0);
    assert!(none.is_empty() && nothing.is_empty());
}

fn flow(id: &str, started_at: &str) -> ComparableFlow {
    ComparableFlow {
        detail: FlowDetail {
            summary: FlowSummary::fixture(id, "GET", "api.test", "/a", 200, 1, 1, started_at),
            request: None,
            response: None,
            timing: Timing::default(),
            error_code: None,
            error_message: None,
        },
        request_body: None,
        response_body: None,
        app_context: None,
    }
}

fn session(id: &str, name: &str) -> CaptureSession {
    CaptureSession {
        schema_version: 1,
        id: id.into(),
        name: name.into(),
        status: SessionStatus::Completed,
        started_at: "1".into(),
        ended_at: None,
        device_id: None,
        app_id: None,
        connection_strategy: None,
        capture_engine: None,
        notes: None,
    }
}

fn error_of<T>(result: Result<T, AppError>) -> AppError {
    match result {
        Ok(_) => panic!("expected an error"),
        Err(error) => error,
    }
}

#[test]
fn snapshots_find_the_session_and_order_its_flows() {
    let ordered = order_by_start(vec![flow("c", "30"), flow("a", "x"), flow("b", "10"), flow("d", "10")]);
    let ids: Vec<&str> = ordered.iter().map(|f| f.detail.summary.id.as_str()).collect();
    assert_eq!(ids, vec!["a", "b", "d", "c"]);
    let sessions = vec![session("s0", "other"), session("s1", "first"), session("s1", "second")];
    let snapshot = match build_snapshot("s1", sessions.clone(), vec![flow("late", "9"), flow("early", "2")]) {
        Ok(snapshot) => snapshot,
        Err(error) => panic!("{}", error.code),
    };
    assert_eq!(snapshot.session.name, "first");
    assert_eq!(snapshot.flows[0].detail.summary.id, "early");
    let missing = error_of(build_snapshot("s9", sessions.clone(), vec![]));
    assert_eq!(missing.code, "compare_session_missing");
    assert_eq!(missing.message, "Capture session was not found.");
    let diagnostics: SessionDiagnostics = match session_diagnostics("s0", sessions.clone(), vec![flow("a", "1"), flow("b", "2")]) {
        Ok(d) => d,
        Err(error) => panic!("{}", error.code),
    };
    assert_eq!(diagnostics.duplicates.len(), 1);
    assert_eq!(error_of(session_diagnostics("nope", sessions, vec![])).code, "compare_session_missing");
}

fn network(request_id: &str) -> SdkEnvelope {
    SdkEnvelope {
        schema_version: 1,
        event_id: format!("evt-{request_id}"),
        occurred_at: "1".into(),
        event: SdkEvent::Network(SdkNetworkEvent {
            client_id: "client".into(),
            request_id: request_id.into(),
            phase: SdkNetworkPhase::Completed,
            method: "GET".into(),
            url: "https://a.test/".into(),
            status_code: Some(200),
            duration_ms: Some(1),
            error: None,
            context: SdkContextSnapshot::default(),
        }),
    }
}

fn detail(header: Option<&str>) -> FlowDetail {
    FlowDetail {
        summary: FlowSummary::fixture("f1", "GET", "api.test", "/a", 200, 1, 1, "5"),
        request: Some(RequestDetail {
            method: "GET".into(),
            url: "https://api.test/a".into(),
            scheme: "https".into(),
            host: "api.test".into(),
            port: None,
            path: "/a".into(),
            query: None,
            headers: header
                .map(|value| vec![HeaderValue { name: "X-Mobile-Api-Studio-Request-Id".into(), value: value.into(), sensitive: false }])
                .unwrap_or_default(),
            body: None,
        }),
        response: None,
        timing: Timing::default(),
        error_code: None,
        error_message: None,
    }
}

#[test]
fn sdk_commands_read_the_event_store() {
    let database = SdkDatabase::new("/tmp/sdk.db");
    assert_eq!(list_sdk_clients(&database).sql, LIST_CLIENTS_SQL);
    let events = list_sdk_events(&database, "client", None);
    assert_eq!(events.sql, EVENTS_FOR_CLIENT_SQL);
    assert_eq!(events.params, vec![SqlValue::Text("client".into()), SqlValue::Integer(250)]);
    assert_eq!(list_sdk_events(&database, "client", Some(9000)).params[1], SqlValue::Integer(2000));
    assert!(search_sdk_events(&database, "   ", None).is_none());
    let search = search_sdk_events(&database, " login ", None).unwrap();
    assert_eq!(search.sql, SEARCH_EVENTS_SQL);
    assert_eq!(search.params, vec![SqlValue::Text("%login%".into()), SqlValue::Integer(500)]);

    let missing = error_of(sdk_enrichment_for_flow(None, vec![], None, vec![]));
    assert_eq!(missing.code, "sdk_flow_missing");
    let plain = sdk_enrichment_for_flow(Some(detail(None)), vec![network("r1")], None, vec![network("r2")]).unwrap();
    assert!(plain.request_id.is_none());
    assert!(plain.request_events.is_empty() && plain.nearby_events.is_empty());
    let linked = sdk_enrichment_for_flow(Some(detail(Some("r1"))), vec![network("r1")], None, vec![network("r2")]).unwrap();
    assert_eq!(linked.request_id.as_deref(), Some("r1"));
    assert_eq!(linked.request_events.len(), 1);
    assert_eq!(linked.nearby_events.len(), 1);
}

#[test]
fn simulators_trust_the_capture_certificate() {
    let provider = IosDeviceProvider;
    assert_eq!(
        provider.install_root_ca("ios:ABC-123", "/tmp/ca.pem"),
        vec!["simctl", "keychain", "ABC-123", "add-root-cert", "/tmp/ca.pem"]
    );
    assert_eq!(provider.install_root_ca("XYZ", "/tmp/ca.pem")[2], "XYZ");
    assert!(provider.install_outcome(true, b"ignored").is_ok());
    let failure = match provider.install_outcome(false, b"  no such device \n") {
        Ok(()) => panic!("expected a failure"),
        Err(error) => error,
    };
    assert_eq!(failure.code, "simctl_ca_install_failed");
    assert_eq!(failure.message, "no such device");
}

#[test]
fn saving_assistant_settings_writes_preferences_first() {
    let database = Database::new("/tmp/app.db");
    let input = AiSettingsInput {
        provider: " openai ".into(),
        model: "  gpt-test ".into(),
        api_key: None,
        secret_json_keys: vec![" Token ".into(), "token".into()],
    };
    let change = match set_ai_settings(&input, &database, &SecretStore) {
        Ok(change) => change,
        Err(error) => panic!("{}", error.code),
    };
    assert_eq!(change.writes.len(), 3);
    assert!(change.writes.iter().all(|w| w.sql == SET_PREFERENCE_SQL));
    assert_eq!(change.writes[1].params, vec![SqlValue::Text("ai.model".into()), SqlValue::Text("gpt-test".into())]);
    assert_eq!(change.writes[2].params[1], SqlValue::Text("[\"token\"]".into()));
    let settings = match change.outcome {
        Ok(settings) => settings,
        Err(error) => panic!("{}", error.code),
    };
    assert_eq!(settings.model, "gpt-test");
    assert_eq!(settings.secret_json_keys, vec!["token".to_string()]);

    let mut keyed = input.clone();
    keyed.api_key = Some(" sk-test ".into());
    let change = match set_ai_settings(&keyed, &database, &SecretStore) {
        Ok(change) => change,
        Err(error) => panic!("{}", error.code),
    };
    assert_eq!(change.writes.len(), 3);
    assert_eq!(error_of(change.outcome).code, "secure_store_unsupported");

    let mut other = input.clone();
    other.provider = "anthropic".into();
    assert_eq!(error_of(set_ai_settings(&other, &database, &SecretStore)).code, "ai_provider_unsupported");
    let mut blank = input;
    blank.model = "  ".into();
    assert_eq!(error_of(set_ai_settings(&blank, &database, &SecretStore)).code, "ai_model_required");
}

#[test]
fn bridge_reports_become_capture_events() {
    assert_eq!(bridge_payload("MAS_EVENT {\"type\":1}").as_deref(), Some("{\"type\":1}"));
    assert_eq!(bridge_payload("mitmdump started"), None);
    let event = publish_bridge_event(
        "s1",
        BridgeEvent::FlowCompleted {
            id: "f1".into(),
            method: "GET".into(),
            host: "api.test".into(),
            path: "/a".into(),
            status_code: 204,
            duration_ms: Some(5),
            response_size_bytes: None,
            started_at: "7".into(),
        },
    );
    match event {
        CaptureEvent::FlowCompleted(flow) => {
            assert_eq!(flow.session_id.as_deref(), Some("s1"));
            assert_eq!(flow.source, FlowSource::Proxy);
            assert_eq!(flow.status_code, Some(204));
        },
        other => panic!("unexpected {:?}", other),
    }
    let failed = publish_bridge_event("s1", BridgeEvent::FlowFailed { id: "f2".into(), code: "tls".into(), message: "bad".into() });
    assert_eq!(failed, CaptureEvent::FlowFailed { flow_id: "f2".into(), code: "tls".into(), message: "bad".into() });
    assert_eq!(
        bridge_parse_failure("eof".into()),
        CaptureEvent::EngineFailed { code: "mitm_bridge_parse_failed".into(), message: "eof".into(), recoverable: true }
    );
}

#[test]
fn flows_take_the_context_of_their_last_network_event() {
    let mut first = network("r1");
    let mut last = network("r1");
    if let SdkEvent::Network(n) = &mut last.event {
        n.context.screen = Some("Login".into());
        n.context.source = Some(SdkSourceLocation { file: Some("Login.swift".into()), function: None, line: Some(12) });
    }
    if let SdkEvent::Network(n) = &mut first.event {
        n.context.screen = Some("Splash".into());
    }
    let events = vec![first, last];
    assert_eq!(last_network_event(&events), Some(1));
    let client = SdkClientRecord {
        client_id: "client".into(),
        app_id: "com.example".into(),
        app_name: "Example".into(),
        app_version: None,
        app_build: None,
        platform: SdkPlatform::Ios,
        device_name: None,
        os_version: None,
        sdk_version: "1".into(),
        first_seen_at: "1".into(),
        last_seen_at: "1".into(),
    };
    let context = sdk_context_for_detail(&detail(Some("r1")), &events, Some(client)).unwrap();
    assert_eq!(context.screen.as_deref(), Some("Login"));
    assert_eq!(context.platform.as_deref(), Some("ios"));
    assert_eq!(context.source_file.as_deref(), Some("Login.swift"));
    assert_eq!(context.source_line, Some(12));
    assert!(sdk_context_for_detail(&detail(None), &events, None).is_none());
    assert!(sdk_context_for_detail(&detail(Some("r1")), &vec![], None).is_none());
}
