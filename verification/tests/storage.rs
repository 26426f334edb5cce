use api_studio::model::{FlowSource, SessionStatus};
use api_studio::sdk::{SdkContextSnapshot, SdkEnvelope, SdkEvent, SdkHandshake, SdkPlatform, SdkLogEvent, SdkLogLevel};
use api_studio::storage::{
    BodyStore, Database, FlowRow, SdkDatabase, SessionRow, SqlValue, DELETE_SESSION_SQL, SEARCH_FLOWS_SQL,
    TOUCH_CLIENT_SQL, UPSERT_CLIENT_SQL,
};
use api_studio::workspace::FlowSearchQuery;

#[test]
fn searches_bind_normalized_filters() {
    let database = Database::new("/tmp/app.db");
    let mut query = FlowSearchQuery::default();
    query.text = Some("  users ".into());
    query.session_id = Some(String::new());
    query.method = Some(" get".into());
    query.source = Some(FlowSource::Replay);
    query.status_class = Some(4);
    query.min_duration_ms = Some(10);
    query.limit = 9000;
    query.offset = 20;
    let statement = database.search_flows(&query);
    assert_eq!(statement.sql, SEARCH_FLOWS_SQL);
    assert_eq!(
        statement.params,
        vec![
            SqlValue::Text("users".into()),
            SqlValue::Null,
            SqlValue::Text("GET".into()),
            SqlValue::Text("replay".into()),
            SqlValue::Integer(400),
            SqlValue::Integer(499),
            SqlValue::Integer(10),
            SqlValue::Null,
            SqlValue::Integer(5000),
            SqlValue::Integer(20),
        ]
    );
    query.limit = 0;
    assert_eq!(database.search_flows(&query).params[8], SqlValue::Integer(1));
}

#[test]
fn rows_become_sessions_and_flows() {
    let session = Database::session_from_row(SessionRow {
        schema_version: 1,
        id: "s".into(),
        name: "Session".into(),
        status: "unknown".into(),
        started_at: "1".into(),
        ended_at: None,
        device_id: None,
        app_id: None,
        connection_strategy: None,
        capture_engine: None,
        notes: None,
    });
    assert_eq!(session.status, SessionStatus::Active);
    let flow = Database::flow_from_row(FlowRow {
        schema_version: 1,
        id: "f".into(),
        session_id: Some("s".into()),
        source: "sdk".into(),
        method: "GET".into(),
        host: "h".into(),
        path: "/".into(),
        status_code: Some(404),
        duration_ms: Some(12),
        response_size_bytes: None,
        started_at: "2".into(),
    });
    assert_eq!(flow.source, FlowSource::Sdk);
    assert_eq!(flow.status_code, Some(404));
    assert_eq!(flow.duration_ms, Some(12));
}

#[test]
fn deletions_bind_the_id() {
    let database = Database::new("/tmp/app.db");
    let statement = database.delete_session("s1");
    assert_eq!(statement.sql, DELETE_SESSION_SQL);
    assert_eq!(statement.params, vec![SqlValue::Text("s1".into())]);
    assert!(Database::changed_any(1));
    assert!(!Database::changed_any(0));
    assert_eq!(database.path(), "/tmp/app.db");
    assert_eq!(database.set_active_environment(None).len(), 1);
    assert_eq!(database.set_active_environment(Some("e")).len(), 2);
    assert_eq!(database.initialize().len(), 5);
    assert!(database.is_empty(0));
    assert!(!database.is_empty(3));
}

#[test]
fn bodies_are_filed_by_digest() {
    let store = BodyStore::new("/data/bodies");
    let stored = store.put(b"abc");
    assert_eq!(stored.sha256, "ba7816bf8f01cfea414140de5dae2223b00361a396177a9cb410ff61f20015ad");
    assert_eq!(stored.byte_size, 3);
    assert_eq!(
        stored.path,
        "/data/bodies/ba/78/ba7816bf8f01cfea414140de5dae2223b00361a396177a9cb410ff61f20015ad.body"
    );
    let trailing = BodyStore::new("/data/");
    assert!(trailing.put(b"abc").path.starts_with("/data/ba/78/"));
    assert_eq!(store.root(), "/data/bodies");
}

fn handshake_envelope() -> SdkEnvelope {
    SdkEnvelope {
        schema_version: 1,
        event_id: "evt-1".into(),
        occurred_at: "100".into(),
        event: SdkEvent::Handshake(SdkHandshake {
            client_id: "client".into(),
            app_id: "com.example".into(),
            app_name: "Example".into(),
            app_version: None,
            app_build: None,
            platform: SdkPlatform::Ios,
            device_name: None,
            os_version: Some("17.2".into()),
            sdk_version: "1.0".into(),
        }),
    }
}

#[test]
fn recorded_handshakes_register_their_client() {
    let database = SdkDatabase::new("/tmp/sdk.db");
    let statements = database.record(&handshake_envelope(), "{}").unwrap();
    assert_eq!(statements.len(), 2);
    assert_eq!(statements[0].params[0], SqlValue::Text("evt-1".into()));
    assert_eq!(statements[0].params[3], SqlValue::Text("handshake".into()));
    assert_eq!(statements[0].params[4], SqlValue::Null);
    assert_eq!(statements[1].sql, UPSERT_CLIENT_SQL);
    assert_eq!(statements[1].params[5], SqlValue::Text("ios".into()));
    assert_eq!(statements[1].params[9], SqlValue::Text("100".into()));
}

#[test]
fn other_events_touch_their_client() {
    let database = SdkDatabase::new("/tmp/sdk.db");
    let mut envelope = handshake_envelope();
    envelope.event = SdkEvent::Log(SdkLogEvent {
        client_id: "client".into(),
        level: SdkLogLevel::Info,
        message: "hello".into(),
        context: SdkContextSnapshot::default(),
    });
    let statements = database.record(&envelope, "{}").unwrap();
    assert_eq!(statements[1].sql, TOUCH_CLIENT_SQL);
    envelope.event_id = " ".into();
    assert_eq!(database.record(&envelope, "{}").unwrap_err().code, "sdk_event_id_required");
}

#[test]
fn event_queries_cap_their_page() {
    let database = SdkDatabase::new("/tmp/sdk.db");
    assert_eq!(database.events_for_client("c", 5000).params[1], SqlValue::Integer(2000));
    assert_eq!(database.search_events("  needle ", 10).params[0], SqlValue::Text("%needle%".into()));
    let recent = database.recent_context_events("c", 3000, 5000, 10);
    assert_eq!(recent.params[1], SqlValue::Text("0".into()));
    assert_eq!(recent.params[2], SqlValue::Text("8000".into()));
}
