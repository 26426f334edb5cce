use api_studio::model::{
    BodyRef, CaptureSession, FlowDetail, FlowSummary, RequestDetail, SessionStatus, Timing, SCHEMA_VERSION,
};
use api_studio::portable::{
    import_workspace, imported_session, omit_secret, ImportMode, PortableFlow, PortableSession, PortableWorkspaceBundle,
    PORTABLE_BUNDLE_VERSION,
};
use api_studio::portable::{import_flow, import_session, restore_body, FlowWrite};
use api_studio::storage::BodyStore;
use api_studio::workspace::{Environment, EnvironmentVariable};

fn session(id: &str, status: SessionStatus) -> CaptureSession {
    CaptureSession {
        schema_version: SCHEMA_VERSION,
        id: id.into(),
        name: "Keep this session".into(),
        status,
        started_at: "1".into(),
        ended_at: Some("2".into()),
        device_id: None,
        app_id: None,
        connection_strategy: None,
        capture_engine: None,
        notes: None,
    }
}

fn variable(id: &str, environment_id: &str, secret: bool) -> EnvironmentVariable {
    EnvironmentVariable {
        schema_version: SCHEMA_VERSION,
        id: id.into(),
        environment_id: environment_id.into(),
        key: "KEY".into(),
        value: Some("value".into()),
        is_secret: secret,
        secret_ref: if secret { Some("env:e:key".into()) } else { None },
        enabled: true,
        sort_order: 0,
    }
}

fn empty_bundle() -> PortableWorkspaceBundle {
    PortableWorkspaceBundle {
        bundle_version: PORTABLE_BUNDLE_VERSION,
        exported_at: "4".into(),
        sessions: vec![],
        collections: vec![],
        saved_requests: vec![],
        environments: vec![],
        environment_variables: vec![],
    }
}

#[test]
fn corrupt_replace_bundle_preserves_existing_workspace() {
    let mut summary = FlowSummary::fixture("new-flow", "POST", "example.test", "/", 200, 1, 0, "3");
    summary.session_id = Some("new-session".into());
    let bundle = PortableWorkspaceBundle {
        bundle_version: PORTABLE_BUNDLE_VERSION,
        exported_at: "3".into(),
        sessions: vec![PortableSession {
            session: session("new-session", SessionStatus::Completed),
            flows: vec![PortableFlow {
                summary: summary.clone(),
                detail: Some(FlowDetail {
                    summary,
                    request: Some(RequestDetail {
                        method: "POST".into(),
                        url: "http://example.test/".into(),
                        scheme: "http".into(),
                        host: "example.test".into(),
                        port: Some(80),
                        path: "/".into(),
                        query: None,
                        headers: vec![],
                        body: Some(BodyRef {
                            sha256: "invalid-body".into(),
                            byte_size: 1,
                            content_type: None,
                            encoding: None,
                            is_binary: false,
                            is_truncated: false,
                        }),
                    }),
                    response: None,
                    timing: Timing::default(),
                    error_code: None,
                    error_message: None,
                }),
                request_body_base64: Some("not base64!".into()),
                response_body_base64: None,
            }],
        }],
        collections: vec![],
        saved_requests: vec![],
        environments: vec![],
        environment_variables: vec![],
    };
    let error = import_workspace(&bundle, ImportMode::Replace, false).unwrap_err();
    assert_eq!(error.code, "bundle_body_invalid");

    let mut orphan_bundle = empty_bundle();
    orphan_bundle.environment_variables = vec![variable("orphan-variable", "missing-environment", false)];
    let error = import_workspace(&orphan_bundle, ImportMode::Replace, false).unwrap_err();
    assert_eq!(error.code, "bundle_reference_missing");
}

#[test]
fn merge_imports_do_not_check_references() {
    let mut bundle = empty_bundle();
    bundle.environment_variables = vec![variable("orphan-variable", "missing-environment", false)];
    let summary = import_workspace(&bundle, ImportMode::Merge, true).unwrap();
    assert_eq!(summary.variables, 1);
    assert_eq!(summary.secret_values_omitted, 0);
}

#[test]
fn imports_of_other_versions_are_refused() {
    let mut bundle = empty_bundle();
    bundle.bundle_version = 1;
    let error = import_workspace(&bundle, ImportMode::Merge, false).unwrap_err();
    assert_eq!(error.code, "unsupported_bundle_version");
    assert_eq!(error.message, "This build supports workspace bundle version 2, received 1.");
}

#[test]
fn replacing_during_a_capture_is_refused() {
    let bundle = empty_bundle();
    let error = import_workspace(&bundle, ImportMode::Replace, true).unwrap_err();
    assert_eq!(error.code, "replace_import_capture_active");
    assert!(import_workspace(&bundle, ImportMode::Replace, false).is_ok());
}

#[test]
fn accepted_imports_count_what_they_bring() {
    let mut bundle = empty_bundle();
    bundle.sessions = vec![
        PortableSession {
            session: session("a", SessionStatus::Completed),
            flows: vec![
                PortableFlow {
                    summary: FlowSummary::fixture("f1", "GET", "h", "/", 200, 1, 0, "1"),
                    detail: None,
                    request_body_base64: None,
                    response_body_base64: None,
                },
                PortableFlow {
                    summary: FlowSummary::fixture("f2", "GET", "h", "/", 200, 1, 0, "2"),
                    detail: None,
                    request_body_base64: None,
                    response_body_base64: None,
                },
            ],
        },
        PortableSession { session: session("b", SessionStatus::Active), flows: vec![] },
    ];
    bundle.environments = vec![Environment {
        schema_version: SCHEMA_VERSION,
        id: "e".into(),
        name: "Dev".into(),
        is_active: true,
        created_at: "1".into(),
        updated_at: "1".into(),
    }];
    bundle.environment_variables = vec![variable("v1", "e", true), variable("v2", "e", false)];
    let summary = import_workspace(&bundle, ImportMode::Replace, false).unwrap();
    assert_eq!(summary.sessions, 2);
    assert_eq!(summary.flows, 2);
    assert_eq!(summary.environments, 1);
    assert_eq!(summary.variables, 2);
    assert_eq!(summary.secret_values_omitted, 1);
}

#[test]
fn active_sessions_are_imported_as_interrupted() {
    let mut active = session("a", SessionStatus::Active);
    active.ended_at = None;
    let imported = imported_session(active, "99");
    assert_eq!(imported.status, SessionStatus::Interrupted);
    assert_eq!(imported.ended_at.as_deref(), Some("99"));
    let done = imported_session(session("b", SessionStatus::Completed), "99");
    assert_eq!(done.status, SessionStatus::Completed);
    assert_eq!(done.ended_at.as_deref(), Some("2"));
}

#[test]
fn secret_values_never_travel() {
    let kept = omit_secret(variable("v", "e", true));
    assert_eq!(kept.value, None);
    assert_eq!(kept.secret_ref, None);
    let plain = omit_secret(variable("v", "e", false));
    assert_eq!(plain.value.as_deref(), Some("value"));
}

#[test]
fn restored_bodies_point_at_where_the_store_keeps_them() {
    let store = BodyStore::new("/data/bodies");
    assert!(restore_body(&store, None, Some("YWJj")).unwrap().is_none());
    let reference = BodyRef {
        sha256: "old".into(),
        byte_size: 99,
        content_type: Some("text/plain".into()),
        encoding: None,
        is_binary: false,
        is_truncated: false,
    };
    let restored = restore_body(&store, Some(&reference), Some("YWJj")).unwrap().unwrap();
    assert_eq!(restored.bytes, b"abc".to_vec());
    assert_eq!(
        restored.reference.sha256,
        "ba7816bf8f01cfea414140de5dae2223b00361a396177a9cb410ff61f20015ad"
    );
    assert_eq!(restored.reference.byte_size, 3);
    assert_eq!(restored.reference.content_type.as_deref(), Some("text/plain"));
    assert_eq!(
        restored.stored.path,
        "/data/bodies/ba/78/ba7816bf8f01cfea414140de5dae2223b00361a396177a9cb410ff61f20015ad.body"
    );
    assert_eq!(restore_body(&store, Some(&reference), None).unwrap_err().code, "bundle_body_missing");
    assert_eq!(restore_body(&store, Some(&reference), Some("not base64!")).unwrap_err().code, "bundle_body_invalid");
}

fn flow_with_request_body(encoded: Option<&str>) -> PortableFlow {
    let summary = FlowSummary::fixture("f1", "POST", "example.test", "/", 200, 1, 0, "3");
    PortableFlow {
        summary: summary.clone(),
        detail: Some(FlowDetail {
            summary,
            request: Some(RequestDetail {
                method: "POST".into(),
                url: "http://example.test/".into(),
                scheme: "http".into(),
                host: "example.test".into(),
                port: Some(80),
                path: "/".into(),
                query: None,
                headers: vec![],
                body: Some(BodyRef {
                    sha256: "old".into(),
                    byte_size: 9,
                    content_type: Some("text/plain".into()),
                    encoding: None,
                    is_binary: false,
                    is_truncated: false,
                }),
            }),
            response: None,
            timing: Timing::default(),
            error_code: None,
            error_message: None,
        }),
        request_body_base64: encoded.map(String::from),
        response_body_base64: None,
    }
}

#[test]
fn imported_flows_are_written_under_their_session_with_restored_bodies() {
    let store = BodyStore::new("/data/bodies");
    match import_flow(&flow_with_request_body(Some("YWJj")), "new-session", &store).unwrap() {
        FlowWrite::Detail { detail, bodies } => {
            assert_eq!(detail.summary.session_id.as_deref(), Some("new-session"));
            assert_eq!(bodies.len(), 1);
            assert_eq!(bodies[0].bytes, b"abc".to_vec());
            let body = detail.request.unwrap().body.unwrap();
            assert_eq!(body.sha256, "ba7816bf8f01cfea414140de5dae2223b00361a396177a9cb410ff61f20015ad");
            assert_eq!(body.byte_size, 3);
            assert_eq!(body.content_type.as_deref(), Some("text/plain"));
        },
        FlowWrite::Summary(_) => panic!("a flow with detail is written with it"),
    }
    let plain = PortableFlow {
        summary: FlowSummary::fixture("f2", "GET", "h", "/", 200, 1, 0, "2"),
        detail: None,
        request_body_base64: None,
        response_body_base64: None,
    };
    match import_flow(&plain, "s", &store).unwrap() {
        FlowWrite::Summary(summary) => assert_eq!(summary.session_id.as_deref(), Some("s")),
        FlowWrite::Detail { .. } => panic!("a flow without detail is written as its summary"),
    }
    assert_eq!(import_flow(&flow_with_request_body(None), "s", &store).unwrap_err().code, "bundle_body_missing");
    assert_eq!(
        import_flow(&flow_with_request_body(Some("not base64!")), "s", &store).unwrap_err().code,
        "bundle_body_invalid"
    );

    let active = PortableSession {
        session: session("live", SessionStatus::Active),
        flows: vec![plain.clone(), flow_with_request_body(Some("YWJj"))],
    };
    let (kept, writes) = import_session(&active, "99", &store).unwrap();
    assert_eq!(kept.status, SessionStatus::Interrupted);
    assert_eq!(kept.ended_at.as_deref(), Some("2"));
    assert_eq!(writes.len(), 2);
    let broken = PortableSession {
        session: session("live", SessionStatus::Completed),
        flows: vec![plain, flow_with_request_body(Some("not base64!")), flow_with_request_body(None)],
    };
    assert_eq!(import_session(&broken, "99", &store).unwrap_err().code, "bundle_body_invalid");
}
