use api_studio::assistant::{AiDatabase, AiResultRecord};
use api_studio::mocks::{MockFailureMode, MockFixture, MockPathMatch, MockRule};
use api_studio::model::{CaptureSession, FlowDetail, FlowSummary, SessionStatus, Timing};
use api_studio::portable::OnboardingStep;
use api_studio::records::{
    COMPLETE_SESSION_SQL, CREATE_COLLECTION_SQL, CREATE_SESSION_SQL, GET_FLOW_DETAIL_SQL, GET_RULE_SQL,
    GET_SAVED_REQUEST_SQL, GET_SETTING_SQL, INSERT_AI_RESULT_SQL, LIST_AI_RESULTS_SQL, LIST_ALL_REQUESTS_SQL,
    LIST_COLLECTION_REQUESTS_SQL, SET_PREFERENCE_SQL, SET_SETTING_SQL, UPSERT_COLLECTION_SQL,
    UPSERT_ENDPOINT_INDEX_SQL, UPSERT_ENVIRONMENT_SQL, UPSERT_FIXTURE_SQL, UPSERT_FLOW_DETAIL_SQL, UPSERT_FLOW_SQL,
    UPSERT_ONBOARDING_STEP_SQL, UPSERT_RULE_SQL, UPSERT_SAVED_REQUEST_SQL, UPSERT_VARIABLE_SQL,
};
use api_studio::storage::{
    AppPreference, Database, MockDatabase, MockFixtureDatabase, SqlValue, CLEAR_ACTIVE_ENVIRONMENT_SQL,
    LIST_RULES_SQL,
};
use api_studio::workspace::{Environment, EnvironmentVariable, SavedCollection, SavedRequest, SavedRequestBody};

fn text(s: &str) -> SqlValue {
    SqlValue::Text(s.into())
}

fn session() -> CaptureSession {
    CaptureSession {
        schema_version: 1,
        id: "s1".into(),
        name: "Morning".into(),
        status: SessionStatus::Completed,
        started_at: "100".into(),
        ended_at: Some("200".into()),
        device_id: None,
        app_id: Some("app".into()),
        connection_strategy: None,
        capture_engine: Some("mitmproxy".into()),
        notes: None,
    }
}

fn rule(id: &str) -> MockRule {
    MockRule {
        schema_version: 1,
        id: id.into(),
        name: "Users".into(),
        enabled: true,
        priority: 3,
        method: None,
        host: None,
        path_pattern: "/users".into(),
        path_match: MockPathMatch::Exact,
        status_code: Some(200),
        response_headers: vec![],
        response_body: None,
        json_mutations: vec![],
        latency_ms: None,
        failure_mode: MockFailureMode::NoFailure,
        request_breakpoint: false,
        response_breakpoint: false,
        source_flow_id: None,
        created_at: "1".into(),
        updated_at: "2".into(),
    }
}

#[test]
fn sessions_are_written_with_their_status_name() {
    let database = Database::new("/tmp/app.db");
    let statement = database.create_session(&session());
    assert_eq!(statement.sql, CREATE_SESSION_SQL);
    assert_eq!(
        statement.params,
        vec![
            text("s1"),
            SqlValue::Integer(1),
            text("Morning"),
            text("completed"),
            text("100"),
            text("200"),
            SqlValue::Null,
            text("app"),
            SqlValue::Null,
            text("mitmproxy"),
            SqlValue::Null,
        ]
    );
    let done = database.complete_session("s1", "300");
    assert_eq!(done.sql, COMPLETE_SESSION_SQL);
    assert_eq!(done.params, vec![text("s1"), text("300")]);
}

#[test]
fn flows_are_written_with_their_endpoint() {
    let database = Database::new("/tmp/app.db");
    let mut flow = FlowSummary::fixture("f1", "GET", "api.test", "/users/42", 404, 12, u64::MAX, "5");
    flow.session_id = Some("s1".into());
    let statement = database.upsert_flow(&flow);
    assert_eq!(statement.sql, UPSERT_FLOW_SQL);
    assert_eq!(
        statement.params,
        vec![
            text("f1"),
            SqlValue::Integer(1),
            text("s1"),
            text("fixture"),
            text("GET"),
            text("api.test"),
            text("/users/42"),
            SqlValue::Integer(404),
            SqlValue::Integer(12),
            SqlValue::Integer(-1),
            text("5"),
        ]
    );
    let index = database.upsert_endpoint_index(&flow);
    assert_eq!(index.sql, UPSERT_ENDPOINT_INDEX_SQL);
    assert_eq!(
        index.params,
        vec![text("f1"), text("GET api.test/users/:id"), text("GET"), text("api.test"), text("/users/:id")]
    );
    let detail = FlowDetail {
        summary: flow.clone(),
        request: None,
        response: None,
        timing: Timing::default(),
        error_code: None,
        error_message: None,
    };
    let statements = database.upsert_flow_detail(&detail, "{}");
    assert_eq!(statements.len(), 2);
    assert_eq!(statements[0].sql, UPSERT_FLOW_SQL);
    assert_eq!(statements[1].sql, UPSERT_FLOW_DETAIL_SQL);
    assert_eq!(statements[1].params, vec![text("f1"), text("{}")]);
    let read = database.get_flow_detail("f1");
    assert_eq!(read.sql, GET_FLOW_DETAIL_SQL);
    assert_eq!(read.params, vec![text("f1")]);
}

#[test]
fn mock_rules_keep_their_row_state() {
    let database = Database::new("/tmp/app.db");
    let statement = database.upsert_mock_rule(&rule("r1"), "{\"id\":\"r1\"}");
    assert_eq!(statement.sql, UPSERT_RULE_SQL);
    assert_eq!(
        statement.params,
        vec![
            text("r1"),
            SqlValue::Integer(1),
            text("{\"id\":\"r1\"}"),
            SqlValue::Integer(1),
            SqlValue::Integer(3),
            text("1"),
            text("2"),
        ]
    );
    assert_eq!(database.get_mock_rule("r1").sql, GET_RULE_SQL);
    assert_eq!(database.list_mock_rules().sql, LIST_RULES_SQL);
    let stored = Database::mock_rule_from_row(rule("r1"), false, 9);
    assert!(!stored.enabled);
    assert_eq!(stored.priority, 9);
    assert_eq!(stored.name, "Users");
    assert_eq!(database.set_mock_rule_priority("r1", 4).params, vec![text("r1"), SqlValue::Integer(4)]);
    assert_eq!(database.set_mock_rule_enabled("r1", false).params, vec![text("r1"), SqlValue::Integer(0)]);

    let mocks = MockDatabase::new("/tmp/app.db");
    assert_eq!(mocks.upsert_rule(&rule("r2"), "{}").params[0], text("r2"));
    assert_eq!(mocks.get_rule("r2").params, vec![text("r2")]);
    assert_eq!(MockDatabase::rule_from_row(rule("r2"), true, -1).priority, -1);

    let fixture = MockFixture {
        schema_version: 1,
        id: "fx".into(),
        name: "Fixture".into(),
        status_code: 201,
        response_headers: vec![],
        response_body: None,
        source_flow_id: None,
        created_at: "1".into(),
        updated_at: "1".into(),
    };
    let written = MockFixtureDatabase::new("/tmp/app.db").upsert(&fixture, "{}");
    assert_eq!(written.sql, UPSERT_FIXTURE_SQL);
    assert_eq!(
        written.params,
        vec![text("fx"), SqlValue::Integer(1), text("Fixture"), text("{}"), text("1"), text("1")]
    );
}

#[test]
fn workspace_rows_are_written_as_stored() {
    let database = Database::new("/tmp/app.db");
    let collection = SavedCollection {
        schema_version: 1,
        id: "c1".into(),
        name: "Smoke".into(),
        description: None,
        sort_order: 2,
        created_at: "1".into(),
        updated_at: "2".into(),
    };
    let statement = database.upsert_collection(&collection);
    assert_eq!(statement.sql, UPSERT_COLLECTION_SQL);
    assert_eq!(statement.params[3], SqlValue::Null);
    assert_eq!(statement.params[4], SqlValue::Integer(2));

    let request = SavedRequest {
        schema_version: 1,
        id: "q1".into(),
        collection_id: "c1".into(),
        name: "List users".into(),
        method: "GET".into(),
        url: "https://api.test/users".into(),
        headers: vec![],
        body: Some(SavedRequestBody { text: Some("{}".into()), base64: None, is_binary: false, content_type: None }),
        source_flow_id: None,
        sort_order: 0,
        created_at: "1".into(),
        updated_at: "1".into(),
    };
    let saved = database.upsert_saved_request(&request, "[]", Some("{\"text\":\"{}\"}"));
    assert_eq!(saved.sql, UPSERT_SAVED_REQUEST_SQL);
    assert_eq!(saved.params.len(), 12);
    assert_eq!(saved.params[6], text("[]"));
    assert_eq!(saved.params[7], text("{\"text\":\"{}\"}"));
    assert_eq!(database.list_saved_requests(Some("c1")).sql, LIST_COLLECTION_REQUESTS_SQL);
    assert_eq!(database.list_saved_requests(Some("c1")).params, vec![text("c1")]);
    assert_eq!(database.list_saved_requests(None).sql, LIST_ALL_REQUESTS_SQL);
    assert!(database.list_saved_requests(None).params.is_empty());
    assert_eq!(database.get_saved_request("q1").sql, GET_SAVED_REQUEST_SQL);

    let mut environment = Environment {
        schema_version: 1,
        id: "e1".into(),
        name: "Staging".into(),
        is_active: true,
        created_at: "1".into(),
        updated_at: "1".into(),
    };
    let statements = database.upsert_environment(&environment);
    assert_eq!(statements.len(), 2);
    assert_eq!(statements[0].sql, CLEAR_ACTIVE_ENVIRONMENT_SQL);
    assert_eq!(statements[1].sql, UPSERT_ENVIRONMENT_SQL);
    assert_eq!(statements[1].params[3], SqlValue::Integer(1));
    environment.is_active = false;
    assert_eq!(database.upsert_environment(&environment).len(), 1);

    let variable = EnvironmentVariable {
        schema_version: 1,
        id: "v1".into(),
        environment_id: "e1".into(),
        key: "TOKEN".into(),
        value: Some("secret-value".into()),
        is_secret: true,
        secret_ref: Some("env:e1:TOKEN".into()),
        enabled: true,
        sort_order: 0,
    };
    let stored = database.upsert_environment_variable(&variable);
    assert_eq!(stored.sql, UPSERT_VARIABLE_SQL);
    assert_eq!(stored.params[4], SqlValue::Null);
    assert_eq!(stored.params[6], text("env:e1:TOKEN"));
    let mut plain = variable.clone();
    plain.is_secret = false;
    assert_eq!(database.upsert_environment_variable(&plain).params[4], text("secret-value"));
}

#[test]
fn preferences_steps_and_settings_are_keyed() {
    let database = Database::new("/tmp/app.db");
    let preference = AppPreference { key: "ai.model".into(), value: "m".into() };
    let statement = database.set_preference(&preference);
    assert_eq!(statement.sql, SET_PREFERENCE_SQL);
    assert_eq!(statement.params, vec![text("ai.model"), text("m")]);
    let step = OnboardingStep { key: "capture".into(), completed: true, completed_at: None };
    let statement = database.upsert_onboarding_step(&step);
    assert_eq!(statement.sql, UPSERT_ONBOARDING_STEP_SQL);
    assert_eq!(statement.params, vec![text("capture"), SqlValue::Integer(1), SqlValue::Null]);
    let (collection, statement) = database.create_collection("c9", "Regression", Some("nightly"), "77");
    assert_eq!(collection.description.as_deref(), Some("nightly"));
    assert_eq!(collection.created_at, "77");
    assert_eq!(collection.updated_at, "77");
    assert_eq!(statement.sql, CREATE_COLLECTION_SQL);
    assert_eq!(statement.params, vec![text("c9"), text("Regression"), text("nightly"), text("77"), text("77")]);
    assert_eq!(database.set_setting("theme", "dark").sql, SET_SETTING_SQL);
    assert_eq!(database.get_setting("theme").sql, GET_SETTING_SQL);
    assert_eq!(database.get_setting("theme").params, vec![text("theme")]);
}

#[test]
fn answer_listings_are_bounded() {
    let database = AiDatabase::new("/tmp/ai.db".into());
    let record = AiResultRecord {
        id: "a1".into(),
        task_kind: "flow_diagnosis".into(),
        source_ref: "flow:f1".into(),
        provider: "openai".into(),
        model: "m".into(),
        context_fingerprint: "fp".into(),
        remote_response_id: None,
        output_text: "ok".into(),
        created_at: "1".into(),
    };
    let statement = database.insert(&record);
    assert_eq!(statement.sql, INSERT_AI_RESULT_SQL);
    assert_eq!(statement.params.len(), 9);
    assert_eq!(statement.params[6], SqlValue::Null);
    let list = database.list_for_source("flow:f1", 500);
    assert_eq!(list.sql, LIST_AI_RESULTS_SQL);
    assert_eq!(list.params, vec![text("flow:f1"), SqlValue::Integer(100)]);
    assert_eq!(database.list_for_source("flow:f1", 0).params[1], SqlValue::Integer(1));
    assert_eq!(database.list_for_source("flow:f1", 7).params[1], SqlValue::Integer(7));
}
