use api_studio::assistant::{clear_ai_api_key, list_ai_results, AiDatabase};
use api_studio::endpoint_groups::group_endpoints;
use api_studio::mock_commands::{
    apply_fixture_to_mock, delete_mock_fixture, delete_mock_rule, disable_all_mocks, list_mock_fixtures,
    published_rules, set_mock_rule_enabled, set_mock_rule_priority,
};
use api_studio::mocks::{MockFailureMode, MockFixture, MockHeaderMutation, MockPathMatch, MockRule};
use api_studio::model::{CaptureSession, FlowDetail, FlowSummary, SessionStatus, Timing};
use api_studio::records::{LIST_AI_RESULTS_SQL, UPSERT_ENDPOINT_INDEX_SQL};
use api_studio::replacement::{
    ImportedFlow, ImportedSession, ReplacementJson, WorkspaceReplacement, CLEAR_COLLECTIONS_SQL,
    CLEAR_ENVIRONMENTS_SQL, CLEAR_SESSIONS_SQL, INSERT_COLLECTION_SQL, INSERT_DETAIL_SQL, INSERT_ENVIRONMENT_SQL,
    INSERT_FLOW_SQL, INSERT_SAVED_REQUEST_SQL, INSERT_SESSION_SQL, INSERT_VARIABLE_SQL, SELECT_SECRET_REFS_SQL,
};
use api_studio::secret::SecretStore;
use api_studio::storage::{
    Database, MockDatabase, MockFixtureDatabase, SqlValue, DELETE_FIXTURE_SQL, DELETE_RULE_SQL, DISABLE_ALL_RULES_SQL,
    LIST_FIXTURES_SQL, LIST_RULES_SQL, SET_RULE_ENABLED_SQL, SET_RULE_PRIORITY_SQL,
};
use api_studio::workspace::{Environment, EnvironmentVariable, SavedCollection, SavedRequest};

fn session(id: &str) -> CaptureSession {
    CaptureSession {
        schema_version: 1,
        id: id.into(),
        name: id.into(),
        status: SessionStatus::Interrupted,
        started_at: "1".into(),
        ended_at: None,
        device_id: None,
        app_id: None,
        connection_strategy: None,
        capture_engine: None,
        notes: None,
    }
}

fn detail_of(summary: &FlowSummary) -> FlowDetail {
    FlowDetail {
        summary: summary.clone(),
        request: None,
        response: None,
        timing: Timing::default(),
        error_code: None,
        error_message: None,
    }
}

fn variable(key: &str, secret: bool) -> EnvironmentVariable {
    EnvironmentVariable {
        schema_version: 1,
        id: format!("v-{key}"),
        environment_id: "e1".into(),
        key: key.into(),
        value: Some("value".into()),
        is_secret: secret,
        secret_ref: if secret { Some(format!("env:e1:{key}")) } else { None },
        enabled: true,
        sort_order: 0,
    }
}

fn replacement() -> (WorkspaceReplacement, ReplacementJson) {
    let first = FlowSummary::fixture("f1", "GET", "api.test", "/a", 200, 1, 1, "1");
    let second = FlowSummary::fixture("f2", "POST", "api.test", "/b/42", 500, 1, 1, "2");
    let replacement = WorkspaceReplacement {
        sessions: vec![
            ImportedSession {
                session: session("s1"),
                flows: vec![
                    ImportedFlow { summary: first.clone(), detail: Some(detail_of(&first)) },
                    ImportedFlow { summary: second.clone(), detail: None },
                ],
            },
            ImportedSession { session: session("s2"), flows: vec![] },
        ],
        collections: vec![SavedCollection {
            schema_version: 1,
            id: "c1".into(),
            name: "Smoke".into(),
            description: None,
            sort_order: 0,
            created_at: "1".into(),
            updated_at: "1".into(),
        }],
        saved_requests: vec![SavedRequest {
            schema_version: 1,
            id: "q1".into(),
            collection_id: "c1".into(),
            name: "Users".into(),
            method: "GET".into(),
            url: "https://api.test/users".into(),
            headers: vec![],
            body: None,
            source_flow_id: None,
            sort_order: 0,
            created_at: "1".into(),
            updated_at: "1".into(),
        }],
        environments: vec![Environment {
            schema_version: 1,
            id: "e1".into(),
            name: "Staging".into(),
            is_active: true,
            created_at: "1".into(),
            updated_at: "1".into(),
        }],
        environment_variables: vec![variable("HOST", false), variable("TOKEN", true)],
    };
    let json = ReplacementJson {
        flow_details: vec![vec![Some("{\"detail\":1}".into()), None], vec![]],
        request_headers: vec!["[]".into()],
        request_bodies: vec![Some("ignored: the request has no body".into())],
    };
    (replacement, json)
}

#[test]
fn replacement_clears_then_writes_in_order() {
    let (replacement, json) = replacement();
    let plan = Database::new("/tmp/app.db").replace_workspace(&replacement, &json);
    assert_eq!(plan.old_secret_refs.sql, SELECT_SECRET_REFS_SQL);
    let order: Vec<&str> = plan.writes.iter().map(|w| w.sql).collect();
    assert_eq!(
        order,
        vec![
            CLEAR_ENVIRONMENTS_SQL,
            CLEAR_COLLECTIONS_SQL,
            CLEAR_SESSIONS_SQL,
            INSERT_SESSION_SQL,
            INSERT_FLOW_SQL,
            UPSERT_ENDPOINT_INDEX_SQL,
            INSERT_DETAIL_SQL,
            INSERT_FLOW_SQL,
            UPSERT_ENDPOINT_INDEX_SQL,
            INSERT_SESSION_SQL,
            INSERT_COLLECTION_SQL,
            INSERT_SAVED_REQUEST_SQL,
            INSERT_ENVIRONMENT_SQL,
            INSERT_VARIABLE_SQL,
            INSERT_VARIABLE_SQL,
        ]
    );
    assert_eq!(plan.writes[6].params, vec![SqlValue::Text("f1".into()), SqlValue::Text("{\"detail\":1}".into())]);
    assert_eq!(plan.writes[11].params[7], SqlValue::Null);
    assert_eq!(plan.writes[13].params[4], SqlValue::Text("value".into()));
    assert_eq!(plan.writes[14].params[4], SqlValue::Null);
    assert_eq!(plan.writes[14].params[6], SqlValue::Text("env:e1:TOKEN".into()));
}

fn rule() -> MockRule {
    MockRule {
        schema_version: 1,
        id: "r1".into(),
        name: "Users".into(),
        enabled: true,
        priority: 0,
        method: None,
        host: None,
        path_pattern: "/users".into(),
        path_match: MockPathMatch::Exact,
        status_code: Some(200),
        response_headers: vec![],
        response_body: None,
        json_mutations: vec![],
        latency_ms: Some(30),
        failure_mode: MockFailureMode::NoFailure,
        request_breakpoint: false,
        response_breakpoint: true,
        source_flow_id: None,
        created_at: "1".into(),
        updated_at: "1".into(),
    }
}

fn fixture() -> MockFixture {
    MockFixture {
        schema_version: 1,
        id: "fx".into(),
        name: "Teapot".into(),
        status_code: 418,
        response_headers: vec![MockHeaderMutation { name: "x-kind".into(), value: Some("tea".into()), remove: false }],
        response_body: None,
        source_flow_id: None,
        created_at: "5".into(),
        updated_at: "5".into(),
    }
}

fn refusal(result: Result<MockRule, api_studio::model::AppError>) -> api_studio::model::AppError {
    match result {
        Ok(_) => panic!("expected a refusal"),
        Err(error) => error,
    }
}

#[test]
fn fixtures_apply_to_rules() {
    let applied = match apply_fixture_to_mock(Some(fixture()), Some(rule()), "9".into()) {
        Ok(rule) => rule,
        Err(error) => panic!("fixture not applied: {}", error.code),
    };
    assert_eq!(applied.status_code, Some(418));
    assert_eq!(applied.response_headers.len(), 1);
    assert_eq!(applied.updated_at, "9");
    assert_eq!(applied.created_at, "1");
    assert_eq!(applied.latency_ms, Some(30));
    assert!(applied.response_breakpoint);
    let missing_fixture = refusal(apply_fixture_to_mock(None, None, "9".into()));
    assert_eq!(missing_fixture.code, "mock_fixture_missing");
    assert_eq!(missing_fixture.message, "Response fixture not found.");
    let missing_rule = refusal(apply_fixture_to_mock(Some(fixture()), None, "9".into()));
    assert_eq!(missing_rule.code, "mock_rule_missing");
    assert!(missing_rule.recoverable);
}

#[test]
fn mock_commands_republish_after_each_change() {
    let database = MockDatabase::new("/tmp/app.db");
    let change = set_mock_rule_enabled(&database, "r1", false);
    assert_eq!(change.change.sql, SET_RULE_ENABLED_SQL);
    assert_eq!(change.change.params, vec![SqlValue::Text("r1".into()), SqlValue::Integer(0)]);
    assert_eq!(change.republish.sql, LIST_RULES_SQL);
    assert_eq!(set_mock_rule_priority(&database, "r1", 7).change.sql, SET_RULE_PRIORITY_SQL);
    assert_eq!(delete_mock_rule(&database, "r1").change.sql, DELETE_RULE_SQL);
    assert_eq!(disable_all_mocks(&database).change.sql, DISABLE_ALL_RULES_SQL);
    let fixtures = MockFixtureDatabase::new("/tmp/app.db");
    assert_eq!(list_mock_fixtures(&fixtures).sql, LIST_FIXTURES_SQL);
    assert_eq!(delete_mock_fixture(&fixtures, "fx").sql, DELETE_FIXTURE_SQL);
    let mut off = rule();
    off.id = "r0".into();
    off.enabled = false;
    let document = published_rules(vec![rule(), off]);
    assert!(document.enabled);
    assert_eq!(document.rules.len(), 1);
    assert_eq!(document.rules[0].id, "r1");
}

#[test]
fn clearing_the_key_reads_the_settings_again() {
    let settings = clear_ai_api_key(&SecretStore, Some("openai".into()), None, Some("[\" Token \"]".into())).unwrap();
    assert_eq!(settings.provider, "openai");
    assert_eq!(settings.model, "gpt-5.6-luna");
    assert_eq!(settings.secret_json_keys, vec!["token".to_string()]);
    assert!(!settings.api_key_configured);
    assert!(!settings.secure_store_available);
    let database = AiDatabase::new("/tmp/ai.db".into());
    let listing = list_ai_results(&database, "flow:f1", None);
    assert_eq!(listing.sql, LIST_AI_RESULTS_SQL);
    assert_eq!(listing.params[1], SqlValue::Integer(20));
    assert_eq!(list_ai_results(&database, "flow:f1", Some(3)).params[1], SqlValue::Integer(3));
}

#[test]
fn endpoints_group_busiest_first() {
    let mut slow = FlowSummary::fixture("f3", "GET", "api.test", "/users/7", 500, 30, 0, "9");
    slow.duration_ms = Some(30);
    let mut untimed = FlowSummary::fixture("f4", "POST", "api.test", "/login", 200, 0, 0, "3");
    untimed.duration_ms = None;
    let flows = vec![
        FlowSummary::fixture("f1", "GET", "api.test", "/users/42", 200, 10, 0, "2"),
        untimed,
        slow,
        FlowSummary::fixture("f2", "GET", "api.test", "/health", 404, 5, 0, "1"),
    ];
    let groups = group_endpoints(&flows);
    let keys: Vec<&str> = groups.iter().map(|g| g.key.as_str()).collect();
    assert_eq!(keys, vec!["GET api.test/users/:id", "GET api.test/health", "POST api.test/login"]);
    let users = &groups[0];
    assert_eq!(users.count, 2);
    assert_eq!(users.error_count, 1);
    assert_eq!(users.duration_total_ms, 40);
    assert_eq!(users.duration_count, 2);
    assert_eq!(users.latest_started_at, "9");
    assert_eq!(users.normalized_path, "/users/:id");
    assert_eq!(groups[1].error_count, 1);
    assert_eq!(groups[2].duration_count, 0);
    assert_eq!(groups[2].duration_total_ms, 0);
    assert_eq!(groups.iter().map(|g| g.count).sum::<u64>(), 4);
    assert!(group_endpoints(&vec![]).is_empty());
}
