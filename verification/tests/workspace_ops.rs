use api_studio::model::{BodyRef, FlowDetail, FlowSummary, HeaderValue, RequestDetail, Timing, SCHEMA_VERSION};
use api_studio::workspace::{Environment, EnvironmentVariable, EnvironmentVariableInput, SavedCollection};
use api_studio::workspace_ops::{
    environment_secrets, environment_snapshot, interpolate_with_active_environment, sanitize_name, save_flow_to_collection,
    update_session_metadata, upsert_collection, upsert_environment, upsert_environment_variable, variable_secret,
    CollectionInput, EnvironmentInput, SaveFlowInput, SessionMetadataInput,
};
use api_studio::storage::SqlValue;

fn environment(id: &str, active: bool) -> Environment {
    Environment {
        schema_version: SCHEMA_VERSION,
        id: id.into(),
        name: id.into(),
        is_active: active,
        created_at: "1".into(),
        updated_at: "1".into(),
    }
}

fn variable(key: &str, value: &str, secret: bool, enabled: bool) -> EnvironmentVariable {
    EnvironmentVariable {
        schema_version: SCHEMA_VERSION,
        id: format!("envvar:e:{}", key.to_lowercase()),
        environment_id: "e".into(),
        key: key.into(),
        value: if secret { None } else { Some(value.into()) },
        is_secret: secret,
        secret_ref: if secret { Some(format!("env:e:{}", key.to_lowercase())) } else { None },
        enabled,
        sort_order: 0,
    }
}

#[test]
fn names_fall_back_when_blank() {
    assert_eq!(sanitize_name("  ", "Untitled", 120), "Untitled");
    assert_eq!(sanitize_name("  Trip  ", "Untitled", 3), "Tri");
    let st = update_session_metadata(&SessionMetadataInput { id: "s".into(), name: " ".into(), notes: None });
    assert_eq!(st.params[1], SqlValue::Text("Untitled Session".into()));
    assert_eq!(st.params[2], SqlValue::Null);
}

#[test]
fn existing_collections_keep_their_creation_and_order() {
    let existing = vec![SavedCollection {
        schema_version: SCHEMA_VERSION,
        id: "c1".into(),
        name: "Old".into(),
        description: None,
        sort_order: 7,
        created_at: "1".into(),
        updated_at: "1".into(),
    }];
    let input = CollectionInput { id: Some("c1".into()), name: "New".into(), description: Some("  ".into()), sort_order: None };
    let saved = upsert_collection(&input, &existing, "5");
    assert_eq!(saved.sort_order, 7);
    assert_eq!(saved.created_at, "1");
    assert_eq!(saved.updated_at, "5");
    assert_eq!(saved.description, None);
    let fresh = upsert_collection(
        &CollectionInput { id: None, name: "".into(), description: Some(" d ".into()), sort_order: None },
        &existing,
        "5",
    );
    assert_eq!(fresh.id, "collection-5");
    assert_eq!(fresh.name, "Untitled Collection");
    assert_eq!(fresh.description.as_deref(), Some("d"));
    assert_eq!(fresh.sort_order, 0);
}

#[test]
fn environments_keep_their_active_flag_unless_set() {
    let existing = vec![environment("e", true)];
    let kept = upsert_environment(&EnvironmentInput { id: Some("e".into()), name: "Dev".into(), is_active: None }, &existing, "9");
    assert!(kept.is_active);
    let fresh = upsert_environment(&EnvironmentInput { id: None, name: "".into(), is_active: None }, &existing, "9");
    assert_eq!(fresh.id, "environment-9");
    assert_eq!(fresh.name, "Environment");
    assert!(!fresh.is_active);
}

#[test]
fn variables_need_a_key_and_secrets_need_a_store() {
    let input = |key: &str, value: Option<&str>, secret: bool| EnvironmentVariableInput {
        environment_id: "e".into(),
        key: key.into(),
        value: value.map(|v| v.to_string()),
        is_secret: secret,
        enabled: true,
        sort_order: None,
    };
    assert_eq!(upsert_environment_variable(&input("  ", Some("v"), false), &vec![]).unwrap_err().code, "environment_key_empty");
    assert_eq!(
        upsert_environment_variable(&input("TOKEN", Some("s3cret"), true), &vec![]).unwrap_err().code,
        "secure_store_unavailable"
    );
    let (secret, stale) = upsert_environment_variable(&input(" Token ", None, true), &vec![]).unwrap();
    assert_eq!(secret.id, "envvar:e:token");
    assert_eq!(secret.secret_ref.as_deref(), Some("env:e:token"));
    assert_eq!(secret.value, None);
    assert_eq!(stale, None);
    let previous = vec![variable("TOKEN", "", true, true)];
    let (plain, stale) = upsert_environment_variable(&input("token", Some("abc"), false), &previous).unwrap();
    assert_eq!(plain.value.as_deref(), Some("abc"));
    assert_eq!(stale.as_deref(), Some("env:e:token"));
}

#[test]
fn interpolation_uses_the_active_environment() {
    let none = interpolate_with_active_environment("{{host}}/x", &vec![environment("e", false)], &vec![]).unwrap();
    assert_eq!(none.value, "{{host}}/x");
    let envs = vec![environment("d", false), environment("e", true)];
    let vars = vec![variable("host", "api.test", false, true), variable("path", "ignored", false, false)];
    let filled = interpolate_with_active_environment("https://{{ host }}/{{path}}", &envs, &vars).unwrap();
    assert_eq!(filled.value, "https://api.test/{{path}}");
    assert_eq!(filled.missing_variables, vec!["path".to_string()]);
    assert!(!filled.used_secret);
    let secret = interpolate_with_active_environment("x", &envs, &vec![variable("token", "", true, true)]).unwrap_err();
    assert_eq!(secret.code, "secure_store_unsupported");
    let mut missing_ref = variable("token", "", true, true);
    missing_ref.secret_ref = None;
    let error = interpolate_with_active_environment("x", &envs, &vec![missing_ref]).unwrap_err();
    assert_eq!(error.code, "secret_reference_missing");
    assert_eq!(error.message, "Secret variable 'token' is missing its secure-store reference.");
}

#[test]
fn snapshots_and_secrets_of_environments() {
    let envs = vec![environment("e", true)];
    let vars = vec![variable("a", "1", false, true), variable("b", "", true, true)];
    let snapshot = environment_snapshot("e", &envs, vars.clone()).unwrap();
    assert_eq!(snapshot.environment.id, "e");
    assert_eq!(snapshot.variables.len(), 2);
    assert_eq!(environment_snapshot("x", &envs, vec![]).unwrap_err().code, "environment_missing");
    assert_eq!(environment_secrets(&vars), vec!["env:e:b".to_string()]);
    assert_eq!(variable_secret(&vars, "envvar:e:b").as_deref(), Some("env:e:b"));
    assert_eq!(variable_secret(&vars, "envvar:e:a"), None);
}

#[test]
fn captured_requests_are_saved_with_their_body() {
    let detail = FlowDetail {
        summary: FlowSummary::fixture("flow", "POST", "api.test", "/items", 201, 1, 0, "1"),
        request: Some(RequestDetail {
            method: "POST".into(),
            url: "https://api.test/items".into(),
            scheme: "https".into(),
            host: "api.test".into(),
            port: None,
            path: "/items".into(),
            query: None,
            headers: vec![HeaderValue { name: "Authorization".into(), value: "Bearer x".into(), sensitive: true }],
            body: Some(BodyRef {
                sha256: "d".into(),
                byte_size: 2,
                content_type: Some("application/json".into()),
                encoding: None,
                is_binary: false,
                is_truncated: false,
            }),
        }),
        response: None,
        timing: Timing::default(),
        error_code: None,
        error_message: None,
    };
    let input = SaveFlowInput { collection_id: "c".into(), flow_id: "flow".into(), name: None };
    let saved = save_flow_to_collection(&input, Some(detail.clone()), Some(b"{}".to_vec()), "7").unwrap();
    assert_eq!(saved.id, "request-7");
    assert_eq!(saved.name, "POST api.test/items");
    assert_eq!(saved.headers[0].value, "Bearer x");
    let body = saved.body.unwrap();
    assert_eq!(body.text.as_deref(), Some("{}"));
    assert!(!body.is_binary);
    assert_eq!(save_flow_to_collection(&input, None, None, "7").unwrap_err().code, "flow_detail_missing");
    let mut no_request = detail;
    no_request.request = None;
    assert_eq!(save_flow_to_collection(&input, Some(no_request), None, "7").unwrap_err().code, "request_detail_missing");
}
