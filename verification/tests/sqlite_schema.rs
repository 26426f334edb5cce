use api_studio::model::{CaptureSession, FlowDetail, FlowSummary, SessionStatus, Timing};
use api_studio::replacement::{ImportedFlow, ImportedSession, ReplacementJson, WorkspaceReplacement};
use api_studio::storage::{Database, SqlStatement, SqlValue};
use api_studio::workspace::{Environment, EnvironmentVariable, SavedCollection, SavedRequest};
use rusqlite::types::Value;
use rusqlite::Connection;

fn bind(statement: &SqlStatement) -> Vec<Value> {
    statement
        .params
        .iter()
        .map(|value| match value {
            SqlValue::Null => Value::Null,
            SqlValue::Integer(i) => Value::Integer(*i),
            SqlValue::Text(t) => Value::Text(t.clone()),
        })
        .collect()
}

fn run(connection: &Connection, statement: &SqlStatement) -> usize {
    connection
        .execute(statement.sql, rusqlite::params_from_iter(bind(statement)))
        .expect("statement runs against the schema")
}

fn count(connection: &Connection, table: &str) -> i64 {
    connection
        .query_row(&format!("SELECT COUNT(*) FROM {table}"), [], |row| row.get(0))
        .unwrap()
}

fn open(database: &Database) -> Connection {
    let connection = Connection::open_in_memory().unwrap();
    for script in database.initialize() {
        connection.execute_batch(script).expect("schema script runs");
    }
    for script in database.initialize() {
        connection.execute_batch(script).expect("schema script runs again");
    }
    connection
}

fn session(id: &str) -> CaptureSession {
    CaptureSession {
        schema_version: 1,
        id: id.into(),
        name: "Session".into(),
        status: SessionStatus::Active,
        started_at: "1".into(),
        ended_at: None,
        device_id: None,
        app_id: None,
        connection_strategy: None,
        capture_engine: None,
        notes: None,
    }
}

#[test]
fn written_statements_fit_the_schema() {
    let database = Database::new(":memory:");
    let connection = open(&database);
    run(&connection, &database.create_session(&session("s1")));
    run(&connection, &database.complete_session("s1", "9"));
    let status: String = connection
        .query_row("SELECT status FROM sessions WHERE id = 's1'", [], |row| row.get(0))
        .unwrap();
    assert_eq!(status, "completed");
    let mut flow = FlowSummary::fixture("f1", "GET", "api.test", "/users/42", 200, 3, 10, "2");
    flow.session_id = Some("s1".into());
    run(&connection, &database.upsert_flow(&flow));
    run(&connection, &database.upsert_endpoint_index(&flow));
    let detail = FlowDetail {
        summary: flow.clone(),
        request: None,
        response: None,
        timing: Timing::default(),
        error_code: None,
        error_message: None,
    };
    for statement in database.upsert_flow_detail(&detail, "{}") {
        run(&connection, &statement);
    }
    assert_eq!(count(&connection, "flows"), 1);
    assert_eq!(count(&connection, "flow_details"), 1);
    let key: String = connection
        .query_row("SELECT endpoint_key FROM flow_endpoint_index WHERE flow_id = 'f1'", [], |row| row.get(0))
        .unwrap();
    assert_eq!(key, "GET api.test/users/:id");

    let (_, created) = database.create_collection("c1", "Legacy", None, "1");
    run(&connection, &created);
    run(&connection, &database.set_setting("theme", "dark"));
    run(&connection, &database.set_setting("theme", "light"));
    let theme: String = connection
        .query_row(database.get_setting("theme").sql, ["theme"], |row| row.get(0))
        .unwrap();
    assert_eq!(theme, "light");
}

#[test]
fn a_replacement_leaves_only_the_imported_workspace() {
    let database = Database::new(":memory:");
    let connection = open(&database);
    run(&connection, &database.create_session(&session("old")));
    let old_flow = {
        let mut flow = FlowSummary::fixture("old-flow", "GET", "api.test", "/", 200, 1, 1, "1");
        flow.session_id = Some("old".into());
        flow
    };
    run(&connection, &database.upsert_flow(&old_flow));

    let mut flow = FlowSummary::fixture("f1", "GET", "api.test", "/users/1", 200, 1, 1, "1");
    flow.session_id = Some("s1".into());
    let replacement = WorkspaceReplacement {
        sessions: vec![ImportedSession {
            session: session("s1"),
            flows: vec![ImportedFlow {
                summary: flow.clone(),
                detail: Some(FlowDetail {
                    summary: flow.clone(),
                    request: None,
                    response: None,
                    timing: Timing::default(),
                    error_code: None,
                    error_message: None,
                }),
            }],
        }],
        collections: vec![SavedCollection {
            schema_version: 1,
            id: "c1".into(),
            name: "Smoke".into(),
            description: None,
            sort_order: 0,
            created_at: "1".into(),
            updated_at: "1".into(),
        }],
        saved_requests: vec![SavedRequest {
            schema_version: 1,
            id: "q1".into(),
            collection_id: "c1".into(),
            name: "Users".into(),
            method: "GET".into(),
            url: "https://api.test/users".into(),
            headers: vec![],
            body: None,
            source_flow_id: None,
            sort_order: 0,
            created_at: "1".into(),
            updated_at: "1".into(),
        }],
        environments: vec![Environment {
            schema_version: 1,
            id: "e1".into(),
            name: "Staging".into(),
            is_active: true,
            created_at: "1".into(),
            updated_at: "1".into(),
        }],
        environment_variables: vec![EnvironmentVariable {
            schema_version: 1,
            id: "v1".into(),
            environment_id: "e1".into(),
            key: "TOKEN".into(),
            value: Some("hunter2".into()),
            is_secret: true,
            secret_ref: Some("env:e1:TOKEN".into()),
            enabled: true,
            sort_order: 0,
        }],
    };
    let json = ReplacementJson {
        flow_details: vec![vec![Some("{}".into())]],
        request_headers: vec!["[]".into()],
        request_bodies: vec![None],
    };
    let plan = database.replace_workspace(&replacement, &json);
    connection.execute_batch("BEGIN").unwrap();
    for statement in &plan.writes {
        run(&connection, statement);
    }
    connection.execute_batch("COMMIT").unwrap();
    assert_eq!(count(&connection, "sessions"), 1);
    assert_eq!(count(&connection, "flows"), 1);
    assert_eq!(count(&connection, "flow_details"), 1);
    assert_eq!(count(&connection, "saved_requests"), 1);
    let value: Option<String> = connection
        .query_row("SELECT value FROM environment_variables WHERE id = 'v1'", [], |row| row.get(0))
        .unwrap();
    assert_eq!(value, None);
    let refs: Vec<String> = connection
        .prepare(plan.old_secret_refs.sql)
        .unwrap()
        .query_map([], |row| row.get(0))
        .unwrap()
        .collect::<Result<_, _>>()
        .unwrap();
    assert_eq!(refs, vec!["env:e1:TOKEN".to_string()]);
}

#[test]
fn a_set_onboarding_step_replaces_the_earlier_one() {
    let database = Database::new(":memory:");
    let connection = open(&database);
    let first = api_studio::portable::set_onboarding_step("connect".into(), false, "1".into());
    let second = api_studio::portable::set_onboarding_step("connect".into(), true, "2".into());
    run(&connection, &database.upsert_onboarding_step(&first));
    run(&connection, &database.upsert_onboarding_step(&second));
    let listed = database.list_onboarding_steps();
    let mut statement = connection.prepare(listed.sql).unwrap();
    let rows: Vec<(String, i64, Option<String>)> = statement
        .query_map(rusqlite::params_from_iter(bind(&listed)), |row| Ok((row.get(0)?, row.get(1)?, row.get(2)?)))
        .unwrap()
        .map(|row| row.unwrap())
        .collect();
    assert_eq!(rows, vec![("connect".to_string(), 1, Some("2".to_string()))]);
}

#[test]
fn an_accepted_fixture_is_listed_afterwards() {
    let store = api_studio::storage::MockFixtureDatabase::new(":memory:");
    let connection = Connection::open_in_memory().unwrap();
    connection.execute_batch(store.initialize()).unwrap();
    let fixture = api_studio::mocks::MockFixture {
        schema_version: 1,
        id: "fx".into(),
        name: "Fixture".into(),
        status_code: 201,
        response_headers: vec![],
        response_body: None,
        source_flow_id: None,
        created_at: "1".into(),
        updated_at: "1".into(),
    };
    run(&connection, &store.upsert(&fixture, "{\"id\":\"fx\"}"));
    run(&connection, &store.upsert(&fixture, "{\"id\":\"fx\",\"v\":2}"));
    let listed = store.list();
    let mut statement = connection.prepare(listed.sql).unwrap();
    let rows: Vec<String> = statement
        .query_map(rusqlite::params_from_iter(bind(&listed)), |row| row.get(0))
        .unwrap()
        .map(|row| row.unwrap())
        .collect();
    assert_eq!(rows, vec!["{\"id\":\"fx\",\"v\":2}".to_string()]);
}
