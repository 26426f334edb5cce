//! The statements that write sessions, flows and the workspace into the
//! traffic database, and those that read them back one at a time.
//!
//! Values that the stores keep as JSON text (a flow's detail, a mock rule, a
//! saved request's headers) are handed in already encoded: the caller owns
//! the encoding, these functions decide where each value goes.
use vstd::prelude::*;

use crate::assistant::{AiDatabase, AiResultRecord};
use crate::devices::opt_view;
use crate::endpoint::{endpoint_key, normalize_endpoint, path_template};
use crate::mocks::{MockFixture, MockRule};
use crate::model::{
    CaptureSession, FlowDetail, FlowSummary, HeaderValue, flow_source_name, flow_source_to_str, session_status_name,
    session_status_to_str,
};
use crate::portable::OnboardingStep;
use crate::text::owned;
use crate::workspace::{Collection, Environment, EnvironmentVariable, SavedCollection, SavedRequest, SavedRequestBody};
use crate::storage::{
    AppPreference, CLEAR_ACTIVE_ENVIRONMENT_SQL, DELETE_RULE_SQL, DISABLE_ALL_RULES_SQL, Database, LIST_RULES_SQL, MockDatabase, MockFixtureDatabase,
    SET_RULE_ENABLED_SQL, SET_RULE_PRIORITY_SQL, SqlParam, SqlStatement, SqlValue, flag, flag_param, opt_text,
    opt_text_param, param_of, params_of, runs, statement, statement0, statement1, statement2, text, text_param,
};

verus! {

// ---------------------------------------------------------------------------
// Parameters
// ---------------------------------------------------------------------------

pub open spec fn int_param(v: int) -> SqlParam {
    SqlParam::Integer(v)
}

/// An optional status code as it is stored.
pub open spec fn opt_u16_param(o: Option<u16>) -> SqlParam {
    match o {
        Some(v) => SqlParam::Integer(v as int),
        None => SqlParam::Null,
    }
}

/// An optional count as it is stored: the signed 64-bit integer of the
/// same bits.
pub open spec fn opt_u64_param(o: Option<u64>) -> SqlParam {
    match o {
        Some(v) => SqlParam::Integer((v as i64) as int),
        None => SqlParam::Null,
    }
}

fn opt_u16_value(o: Option<u16>) -> (v: SqlValue)
    ensures
        param_of(v) == opt_u16_param(o),
{
    match o {
        Some(x) => SqlValue::Integer(x as i64),
        None => SqlValue::Null,
    }
}

fn opt_u64_value(o: Option<u64>) -> (v: SqlValue)
    ensures
        param_of(v) == opt_u64_param(o),
{
    match o {
        Some(x) => SqlValue::Integer(x as i64),
        None => SqlValue::Null,
    }
}

// ---------------------------------------------------------------------------
// Sessions and flows
// ---------------------------------------------------------------------------

pub const CREATE_SESSION_SQL: &'static str = "
            INSERT INTO sessions (
                id,
                schema_version,
                name,
                status,
                started_at,
                ended_at,
                device_id,
                app_id,
                connection_strategy,
                capture_engine,
                notes
            ) VALUES (?1, ?2, ?3, ?4, ?5, ?6, ?7, ?8, ?9, ?10, ?11)
            ON CONFLICT(id) DO UPDATE SET
                name = excluded.name,
                status = excluded.status,
                ended_at = excluded.ended_at,
                device_id = excluded.device_id,
                app_id = excluded.app_id,
                connection_strategy = excluded.connection_strategy,
                capture_engine = excluded.capture_engine,
                notes = excluded.notes
            ";

pub const COMPLETE_SESSION_SQL: &'static str = "UPDATE sessions SET status = 'completed', ended_at = ?2 WHERE id = ?1";

pub const UPSERT_FLOW_SQL: &'static str = "
            INSERT INTO flows (
                id,
                schema_version,
                session_id,
                source,
                method,
                host,
                path,
                status_code,
                duration_ms,
                response_size_bytes,
                started_at
            ) VALUES (?1, ?2, ?3, ?4, ?5, ?6, ?7, ?8, ?9, ?10, ?11)
            ON CONFLICT(id) DO UPDATE SET
                schema_version = excluded.schema_version,
                session_id = excluded.session_id,
                source = excluded.source,
                method = excluded.method,
                host = excluded.host,
                path = excluded.path,
                status_code = excluded.status_code,
                duration_ms = excluded.duration_ms,
                response_size_bytes = excluded.response_size_bytes,
                started_at = excluded.started_at
            ";

pub const UPSERT_ENDPOINT_INDEX_SQL: &'static str = "
        INSERT INTO flow_endpoint_index (flow_id, endpoint_key, method, host, path_template)
        VALUES (?1, ?2, ?3, ?4, ?5)
        ON CONFLICT(flow_id) DO UPDATE SET
            endpoint_key = excluded.endpoint_key,
            method = excluded.method,
            host = excluded.host,
            path_template = excluded.path_template
        ";

pub const UPSERT_FLOW_DETAIL_SQL: &'static str = "
            INSERT INTO flow_details (flow_id, detail_json)
            VALUES (?1, ?2)
            ON CONFLICT(flow_id) DO UPDATE SET
                detail_json = excluded.detail_json,
                updated_at = CURRENT_TIMESTAMP
            ";

pub const GET_FLOW_DETAIL_SQL: &'static str = "SELECT detail_json FROM flow_details WHERE flow_id = ?1";

/// The columns of a session, in the order the statements bind them.
pub open spec fn session_params(s: CaptureSession) -> Seq<SqlParam> {
    seq![
        text_param(s.id@),
        int_param(s.schema_version as int),
        text_param(s.name@),
        text_param(session_status_name(s.status)),
        text_param(s.started_at@),
        opt_text_param(opt_view(s.ended_at)),
        opt_text_param(opt_view(s.device_id)),
        opt_text_param(opt_view(s.app_id)),
        opt_text_param(opt_view(s.connection_strategy)),
        opt_text_param(opt_view(s.capture_engine)),
        opt_text_param(opt_view(s.notes)),
    ]
}

/// The columns of a flow, in the order the statements bind them.
pub open spec fn flow_params(f: FlowSummary) -> Seq<SqlParam> {
    seq![
        text_param(f.id@),
        int_param(f.schema_version as int),
        opt_text_param(opt_view(f.session_id)),
        text_param(flow_source_name(f.source)),
        text_param(f.method@),
        text_param(f.host@),
        text_param(f.path@),
        opt_u16_param(f.status_code),
        opt_u64_param(f.duration_ms),
        opt_u64_param(f.response_size_bytes),
        text_param(f.started_at@),
    ]
}

/// The row of the endpoint index for a flow: its id, the endpoint key, the
/// method, the host and the path template.
pub open spec fn endpoint_params(f: FlowSummary) -> Seq<SqlParam> {
    seq![
        text_param(f.id@),
        text_param(endpoint_key(f.method@, f.host@, f.path@)),
        text_param(f.method@),
        text_param(f.host@),
        text_param(path_template(f.path@)),
    ]
}

pub(crate) fn session_values(session: &CaptureSession, sql: &'static str) -> (st: SqlStatement)
    ensures
        runs(st, sql, session_params(*session)),
{
    let params = vec![
        text(session.id.as_str()),
        SqlValue::Integer(session.schema_version as i64),
        text(session.name.as_str()),
        text(session_status_to_str(&session.status)),
        text(session.started_at.as_str()),
        opt_text(&session.ended_at),
        opt_text(&session.device_id),
        opt_text(&session.app_id),
        opt_text(&session.connection_strategy),
        opt_text(&session.capture_engine),
        opt_text(&session.notes),
    ];
    let st = statement(sql, params);
    assert(params_of(st) =~= session_params(*session));
    st
}

pub(crate) fn flow_values(flow: &FlowSummary, sql: &'static str) -> (st: SqlStatement)
    ensures
        runs(st, sql, flow_params(*flow)),
{
    let params = vec![
        text(flow.id.as_str()),
        SqlValue::Integer(flow.schema_version as i64),
        opt_text(&flow.session_id),
        text(flow_source_to_str(&flow.source)),
        text(flow.method.as_str()),
        text(flow.host.as_str()),
        text(flow.path.as_str()),
        opt_u16_value(flow.status_code),
        opt_u64_value(flow.duration_ms),
        opt_u64_value(flow.response_size_bytes),
        text(flow.started_at.as_str()),
    ];
    let st = statement(sql, params);
    assert(params_of(st) =~= flow_params(*flow));
    st
}

impl Database {
    /// The statement that records a session, or updates the recorded one
    /// with the same id (all but its start and schema version).
    pub fn create_session(&self, session: &CaptureSession) -> (st: SqlStatement)
        ensures
            runs(st, CREATE_SESSION_SQL, session_params(*session)),
    {
        session_values(session, CREATE_SESSION_SQL)
    }

    /// The statement that marks a session completed at `ended_at`.
    pub fn complete_session(&self, id: &str, ended_at: &str) -> (st: SqlStatement)
        ensures
            runs(st, COMPLETE_SESSION_SQL, seq![text_param(id@), text_param(ended_at@)]),
    {
        statement2(COMPLETE_SESSION_SQL, text(id), text(ended_at))
    }

    /// The statement that records a flow, or replaces the recorded one with
    /// the same id.
    pub fn upsert_flow(&self, flow: &FlowSummary) -> (st: SqlStatement)
        ensures
            runs(st, UPSERT_FLOW_SQL, flow_params(*flow)),
    {
        flow_values(flow, UPSERT_FLOW_SQL)
    }

    /// The statement that files a flow under its endpoint.
    pub fn upsert_endpoint_index(&self, flow: &FlowSummary) -> (st: SqlStatement)
        ensures
            runs(st, UPSERT_ENDPOINT_INDEX_SQL, endpoint_params(*flow)),
    {
        let endpoint = normalize_endpoint(flow.method.as_str(), flow.host.as_str(), flow.path.as_str());
        let params = vec![
            text(flow.id.as_str()),
            SqlValue::Text(endpoint.key),
            SqlValue::Text(endpoint.method),
            SqlValue::Text(endpoint.host),
            SqlValue::Text(endpoint.path_template),
        ];
        let st = statement(UPSERT_ENDPOINT_INDEX_SQL, params);
        assert(params_of(st) =~= endpoint_params(*flow));
        st
    }

    /// The statements that record a flow with its full detail, given the
    /// detail encoded as JSON: the flow's summary first, then the detail.
    pub fn upsert_flow_detail(&self, detail: &FlowDetail, detail_json: &str) -> (r: Vec<SqlStatement>)
        ensures
            r@.len() == 2,
            runs(r@[0], UPSERT_FLOW_SQL, flow_params(detail.summary)),
            runs(r@[1], UPSERT_FLOW_DETAIL_SQL, seq![text_param(detail.summary.id@), text_param(detail_json@)]),
    {
        let first = self.upsert_flow(&detail.summary);
        let second = statement2(UPSERT_FLOW_DETAIL_SQL, text(detail.summary.id.as_str()), text(detail_json));
        vec![first, second]
    }

    /// The query for the encoded detail of a flow.
    pub fn get_flow_detail(&self, flow_id: &str) -> (st: SqlStatement)
        ensures
            runs(st, GET_FLOW_DETAIL_SQL, seq![text_param(flow_id@)]),
    {
        statement1(GET_FLOW_DETAIL_SQL, text(flow_id))
    }
}

// ---------------------------------------------------------------------------
// Mock rules and response fixtures
// ---------------------------------------------------------------------------

pub const UPSERT_RULE_SQL: &'static str = "
            INSERT INTO mock_rules (
                id, schema_version, rule_json, enabled, priority, created_at, updated_at
            ) VALUES (?1, ?2, ?3, ?4, ?5, ?6, ?7)
            ON CONFLICT(id) DO UPDATE SET
                schema_version = excluded.schema_version,
                rule_json = excluded.rule_json,
                enabled = excluded.enabled,
                priority = excluded.priority,
                updated_at = excluded.updated_at
            ";

pub const GET_RULE_SQL: &'static str = "SELECT rule_json, enabled, priority FROM mock_rules WHERE id = ?1";

pub const UPSERT_FIXTURE_SQL: &'static str = "
            INSERT INTO mock_fixtures (
                id, schema_version, name, fixture_json, created_at, updated_at
            ) VALUES (?1, ?2, ?3, ?4, ?5, ?6)
            ON CONFLICT(id) DO UPDATE SET
                schema_version = excluded.schema_version,
                name = excluded.name,
                fixture_json = excluded.fixture_json,
                updated_at = excluded.updated_at
            ";

/// The columns of a mock rule: its id, schema version, the rule encoded
/// as JSON, whether it is enabled, its priority and its timestamps.
pub open spec fn rule_params(rule: MockRule, rule_json: Seq<char>) -> Seq<SqlParam> {
    seq![
        text_param(rule.id@),
        int_param(rule.schema_version as int),
        text_param(rule_json),
        flag_param(rule.enabled),
        int_param(rule.priority as int),
        text_param(rule.created_at@),
        text_param(rule.updated_at@),
    ]
}

/// The columns of a response fixture.
pub open spec fn fixture_params(fixture: MockFixture, fixture_json: Seq<char>) -> Seq<SqlParam> {
    seq![
        text_param(fixture.id@),
        int_param(fixture.schema_version as int),
        text_param(fixture.name@),
        text_param(fixture_json),
        text_param(fixture.created_at@),
        text_param(fixture.updated_at@),
    ]
}

/// A rule read back: the decoded rule with the enabled flag and the
/// priority of its row, which take precedence over what the JSON says.
pub open spec fn is_stored_rule(decoded: MockRule, enabled: bool, priority: i64, r: MockRule) -> bool {
    r == MockRule { enabled, priority, ..decoded }
}

fn rule_values(rule: &MockRule, rule_json: &str) -> (st: SqlStatement)
    ensures
        runs(st, UPSERT_RULE_SQL, rule_params(*rule, rule_json@)),
{
    let params = vec![
        text(rule.id.as_str()),
        SqlValue::Integer(rule.schema_version as i64),
        text(rule_json),
        flag(rule.enabled),
        SqlValue::Integer(rule.priority),
        text(rule.created_at.as_str()),
        text(rule.updated_at.as_str()),
    ];
    let st = statement(UPSERT_RULE_SQL, params);
    assert(params_of(st) =~= rule_params(*rule, rule_json@));
    st
}

fn stored_rule(decoded: MockRule, enabled: bool, priority: i64) -> (r: MockRule)
    ensures
        is_stored_rule(decoded, enabled, priority, r),
{
    let mut rule = decoded;
    rule.enabled = enabled;
    rule.priority = priority;
    rule
}

impl Database {
    /// The statement that stores a mock rule, given the rule encoded as
    /// JSON.
    pub fn upsert_mock_rule(&self, rule: &MockRule, rule_json: &str) -> (st: SqlStatement)
        ensures
            runs(st, UPSERT_RULE_SQL, rule_params(*rule, rule_json@)),
    {
        rule_values(rule, rule_json)
    }

    /// The query for the mock rules in the order they apply.
    pub fn list_mock_rules(&self) -> (st: SqlStatement)
        ensures
            runs(st, LIST_RULES_SQL, seq![]),
    {
        statement0(LIST_RULES_SQL)
    }

    /// The query for one mock rule.
    pub fn get_mock_rule(&self, id: &str) -> (st: SqlStatement)
        ensures
            runs(st, GET_RULE_SQL, seq![text_param(id@)]),
    {
        statement1(GET_RULE_SQL, text(id))
    }

    /// The rule a row of `list_mock_rules` or `get_mock_rule` holds.
    pub fn mock_rule_from_row(decoded: MockRule, enabled: bool, priority: i64) -> (r: MockRule)
        ensures
            is_stored_rule(decoded, enabled, priority, r),
    {
        stored_rule(decoded, enabled, priority)
    }

    pub fn set_mock_rule_enabled(&self, id: &str, enabled: bool) -> (st: SqlStatement)
        ensures
            runs(st, SET_RULE_ENABLED_SQL, seq![text_param(id@), flag_param(enabled)]),
    {
        statement2(SET_RULE_ENABLED_SQL, text(id), flag(enabled))
    }

    pub fn set_mock_rule_priority(&self, id: &str, priority: i64) -> (st: SqlStatement)
        ensures
            runs(st, SET_RULE_PRIORITY_SQL, seq![text_param(id@), int_param(priority as int)]),
    {
        statement2(SET_RULE_PRIORITY_SQL, text(id), SqlValue::Integer(priority))
    }

    pub fn delete_mock_rule(&self, id: &str) -> (st: SqlStatement)
        ensures
            runs(st, DELETE_RULE_SQL, seq![text_param(id@)]),
    {
        statement1(DELETE_RULE_SQL, text(id))
    }

    /// The statement that disables every enabled rule; the count of rows it
    /// changed is the count of rules it disabled.
    pub fn disable_all_mock_rules(&self) -> (st: SqlStatement)
        ensures
            runs(st, DISABLE_ALL_RULES_SQL, seq![]),
    {
        statement0(DISABLE_ALL_RULES_SQL)
    }
}

impl MockDatabase {
    /// The statement that stores a mock rule, given the rule encoded as
    /// JSON.
    pub fn upsert_rule(&self, rule: &MockRule, rule_json: &str) -> (st: SqlStatement)
        ensures
            runs(st, UPSERT_RULE_SQL, rule_params(*rule, rule_json@)),
    {
        rule_values(rule, rule_json)
    }

    /// The query for one rule.
    pub fn get_rule(&self, id: &str) -> (st: SqlStatement)
        ensures
            runs(st, GET_RULE_SQL, seq![text_param(id@)]),
    {
        statement1(GET_RULE_SQL, text(id))
    }

    /// The rule a row of `list_rules` or `get_rule` holds.
    pub fn rule_from_row(decoded: MockRule, enabled: bool, priority: i64) -> (r: MockRule)
        ensures
            is_stored_rule(decoded, enabled, priority, r),
    {
        stored_rule(decoded, enabled, priority)
    }
}

impl MockFixtureDatabase {
    /// The statement that stores a fixture, given the fixture encoded as
    /// JSON.
    pub fn upsert(&self, fixture: &MockFixture, fixture_json: &str) -> (st: SqlStatement)
        ensures
            runs(st, UPSERT_FIXTURE_SQL, fixture_params(*fixture, fixture_json@)),
    {
        let params = vec![
            text(fixture.id.as_str()),
            SqlValue::Integer(fixture.schema_version as i64),
            text(fixture.name.as_str()),
            text(fixture_json),
            text(fixture.created_at.as_str()),
            text(fixture.updated_at.as_str()),
        ];
        let st = statement(UPSERT_FIXTURE_SQL, params);
        assert(params_of(st) =~= fixture_params(*fixture, fixture_json@));
        st
    }
}

// ---------------------------------------------------------------------------
// The workspace
// ---------------------------------------------------------------------------

pub const UPSERT_COLLECTION_SQL: &'static str = "
            INSERT INTO saved_collections
                (id, schema_version, name, description, sort_order, created_at, updated_at)
            VALUES (?1, ?2, ?3, ?4, ?5, ?6, ?7)
            ON CONFLICT(id) DO UPDATE SET
                name = excluded.name,
                description = excluded.description,
                sort_order = excluded.sort_order,
                updated_at = excluded.updated_at
            ";

pub const UPSERT_SAVED_REQUEST_SQL: &'static str = "
            INSERT INTO saved_requests (
                id, schema_version, collection_id, name, method, url, headers_json, body_json,
                source_flow_id, sort_order, created_at, updated_at
            ) VALUES (?1, ?2, ?3, ?4, ?5, ?6, ?7, ?8, ?9, ?10, ?11, ?12)
            ON CONFLICT(id) DO UPDATE SET
                collection_id = excluded.collection_id,
                name = excluded.name,
                method = excluded.method,
                url = excluded.url,
                headers_json = excluded.headers_json,
                body_json = excluded.body_json,
                source_flow_id = excluded.source_flow_id,
                sort_order = excluded.sort_order,
                updated_at = excluded.updated_at
            ";

pub const LIST_COLLECTION_REQUESTS_SQL: &'static str = "SELECT schema_version, id, collection_id, name, method, url, headers_json,
                      body_json, source_flow_id, sort_order, created_at, updated_at
               FROM saved_requests WHERE collection_id = ?1
               ORDER BY sort_order ASC, created_at ASC";

pub const LIST_ALL_REQUESTS_SQL: &'static str = "SELECT schema_version, id, collection_id, name, method, url, headers_json,
                      body_json, source_flow_id, sort_order, created_at, updated_at
               FROM saved_requests ORDER BY collection_id, sort_order ASC, created_at ASC";

pub const GET_SAVED_REQUEST_SQL: &'static str = "SELECT schema_version, id, collection_id, name, method, url, headers_json,
                      body_json, source_flow_id, sort_order, created_at, updated_at
               FROM saved_requests WHERE id = ?1";

pub const UPSERT_ENVIRONMENT_SQL: &'static str = "
            INSERT INTO environments (id, schema_version, name, is_active, created_at, updated_at)
            VALUES (?1, ?2, ?3, ?4, ?5, ?6)
            ON CONFLICT(id) DO UPDATE SET
                name = excluded.name,
                is_active = excluded.is_active,
                updated_at = excluded.updated_at
            ";

pub const UPSERT_VARIABLE_SQL: &'static str = "
            INSERT INTO environment_variables (
                id, schema_version, environment_id, key, value, is_secret, secret_ref, enabled, sort_order
            ) VALUES (?1, ?2, ?3, ?4, ?5, ?6, ?7, ?8, ?9)
            ON CONFLICT(id) DO UPDATE SET
                environment_id = excluded.environment_id,
                key = excluded.key,
                value = excluded.value,
                is_secret = excluded.is_secret,
                secret_ref = excluded.secret_ref,
                enabled = excluded.enabled,
                sort_order = excluded.sort_order
            ";

pub const SET_PREFERENCE_SQL: &'static str = "INSERT INTO app_preferences (key, value) VALUES (?1, ?2)
               ON CONFLICT(key) DO UPDATE SET value = excluded.value, updated_at = CURRENT_TIMESTAMP";

pub const UPSERT_ONBOARDING_STEP_SQL: &'static str = "INSERT INTO onboarding_steps (key, completed, completed_at) VALUES (?1, ?2, ?3)
               ON CONFLICT(key) DO UPDATE SET completed = excluded.completed, completed_at = excluded.completed_at";

pub const CREATE_COLLECTION_SQL: &'static str = "
            INSERT INTO collections (id, name, description, created_at, updated_at)
            VALUES (?1, ?2, ?3, ?4, ?5)
            ON CONFLICT(id) DO UPDATE SET
                name = excluded.name,
                description = excluded.description,
                updated_at = excluded.updated_at
            ";

pub const SET_SETTING_SQL: &'static str = "
            INSERT INTO app_settings (key, value) VALUES (?1, ?2)
            ON CONFLICT(key) DO UPDATE SET value = excluded.value, updated_at = CURRENT_TIMESTAMP
            ";

pub const GET_SETTING_SQL: &'static str = "SELECT value FROM app_settings WHERE key = ?1";

/// The columns of a saved collection.
pub open spec fn collection_params(c: SavedCollection) -> Seq<SqlParam> {
    seq![
        text_param(c.id@),
        int_param(c.schema_version as int),
        text_param(c.name@),
        opt_text_param(opt_view(c.description)),
        int_param(c.sort_order as int),
        text_param(c.created_at@),
        text_param(c.updated_at@),
    ]
}

/// The columns of a saved request, with its headers and its body encoded
/// as JSON.
pub open spec fn saved_request_params(r: SavedRequest, headers_json: Seq<char>, body_json: Option<Seq<char>>) -> Seq<SqlParam> {
    seq![
        text_param(r.id@),
        int_param(r.schema_version as int),
        text_param(r.collection_id@),
        text_param(r.name@),
        text_param(r.method@),
        text_param(r.url@),
        text_param(headers_json),
        opt_text_param(body_json),
        opt_text_param(opt_view(r.source_flow_id)),
        int_param(r.sort_order as int),
        text_param(r.created_at@),
        text_param(r.updated_at@),
    ]
}

/// The columns of an environment.
pub open spec fn environment_params(e: Environment) -> Seq<SqlParam> {
    seq![
        text_param(e.id@),
        int_param(e.schema_version as int),
        text_param(e.name@),
        flag_param(e.is_active),
        text_param(e.created_at@),
        text_param(e.updated_at@),
    ]
}

/// The value of a variable as the database keeps it: none for a secret,
/// whose value lives in the secret store.
pub open spec fn stored_value(v: EnvironmentVariable) -> Option<Seq<char>> {
    if v.is_secret {
        None
    } else {
        opt_view(v.value)
    }
}

/// The columns of a variable.
pub open spec fn variable_params(v: EnvironmentVariable) -> Seq<SqlParam> {
    seq![
        text_param(v.id@),
        int_param(v.schema_version as int),
        text_param(v.environment_id@),
        text_param(v.key@),
        opt_text_param(stored_value(v)),
        flag_param(v.is_secret),
        opt_text_param(opt_view(v.secret_ref)),
        flag_param(v.enabled),
        int_param(v.sort_order as int),
    ]
}

/// A saved request as the `saved_requests` table returns it, with its
/// headers and body decoded.
pub struct SavedRequestRow {
    pub schema_version: i64,
    pub id: String,
    pub collection_id: String,
    pub name: String,
    pub method: String,
    pub url: String,
    pub headers: Vec<HeaderValue>,
    pub body: Option<SavedRequestBody>,
    pub source_flow_id: Option<String>,
    pub sort_order: i64,
    pub created_at: String,
    pub updated_at: String,
}

pub open spec fn saved_request_of_row(row: SavedRequestRow, r: SavedRequest) -> bool {
    &&& r.schema_version == row.schema_version as u16
    &&& r.id == row.id
    &&& r.collection_id == row.collection_id
    &&& r.name == row.name
    &&& r.method == row.method
    &&& r.url == row.url
    &&& r.headers == row.headers
    &&& r.body == row.body
    &&& r.source_flow_id == row.source_flow_id
    &&& r.sort_order == row.sort_order
    &&& r.created_at == row.created_at
    &&& r.updated_at == row.updated_at
}

pub(crate) fn collection_values(c: &SavedCollection, sql: &'static str) -> (st: SqlStatement)
    ensures
        runs(st, sql, collection_params(*c)),
{
    let params = vec![
        text(c.id.as_str()),
        SqlValue::Integer(c.schema_version as i64),
        text(c.name.as_str()),
        opt_text(&c.description),
        SqlValue::Integer(c.sort_order),
        text(c.created_at.as_str()),
        text(c.updated_at.as_str()),
    ];
    let st = statement(sql, params);
    assert(params_of(st) =~= collection_params(*c));
    st
}

pub(crate) fn saved_request_values(
    r: &SavedRequest,
    headers_json: &str,
    body_json: Option<&str>,
    sql: &'static str,
) -> (st: SqlStatement)
    ensures
        runs(st, sql, saved_request_params(*r, headers_json@, match body_json {
            Some(b) => Some(b@),
            None => None,
        })),
{
    let body = match body_json {
        Some(b) => text(b),
        None => SqlValue::Null,
    };
    let params = vec![
        text(r.id.as_str()),
        SqlValue::Integer(r.schema_version as i64),
        text(r.collection_id.as_str()),
        text(r.name.as_str()),
        text(r.method.as_str()),
        text(r.url.as_str()),
        text(headers_json),
        body,
        opt_text(&r.source_flow_id),
        SqlValue::Integer(r.sort_order),
        text(r.created_at.as_str()),
        text(r.updated_at.as_str()),
    ];
    let st = statement(sql, params);
    assert(params_of(st) =~= saved_request_params(*r, headers_json@, match body_json {
        Some(b) => Some(b@),
        None => None,
    }));
    st
}

pub(crate) fn environment_values(e: &Environment, sql: &'static str) -> (st: SqlStatement)
    ensures
        runs(st, sql, environment_params(*e)),
{
    let params = vec![
        text(e.id.as_str()),
        SqlValue::Integer(e.schema_version as i64),
        text(e.name.as_str()),
        flag(e.is_active),
        text(e.created_at.as_str()),
        text(e.updated_at.as_str()),
    ];
    let st = statement(sql, params);
    assert(params_of(st) =~= environment_params(*e));
    st
}

pub(crate) fn variable_values(v: &EnvironmentVariable, sql: &'static str) -> (st: SqlStatement)
    ensures
        runs(st, sql, variable_params(*v)),
{
    let value = if v.is_secret { SqlValue::Null } else { opt_text(&v.value) };
    let params = vec![
        text(v.id.as_str()),
        SqlValue::Integer(v.schema_version as i64),
        text(v.environment_id.as_str()),
        text(v.key.as_str()),
        value,
        flag(v.is_secret),
        opt_text(&v.secret_ref),
        flag(v.enabled),
        SqlValue::Integer(v.sort_order),
    ];
    let st = statement(sql, params);
    assert(params_of(st) =~= variable_params(*v));
    st
}

impl Database {
    /// The statement that stores a collection, or updates the stored one
    /// with the same id (all but its schema version and creation time).
    pub fn upsert_collection(&self, collection: &SavedCollection) -> (st: SqlStatement)
        ensures
            runs(st, UPSERT_COLLECTION_SQL, collection_params(*collection)),
    {
        collection_values(collection, UPSERT_COLLECTION_SQL)
    }

    /// The statement that stores a saved request, given its headers and
    /// body encoded as JSON.
    pub fn upsert_saved_request(&self, request: &SavedRequest, headers_json: &str, body_json: Option<&str>) -> (st: SqlStatement)
        ensures
            runs(st, UPSERT_SAVED_REQUEST_SQL, saved_request_params(*request, headers_json@, match body_json {
                Some(b) => Some(b@),
                None => None,
            })),
    {
        saved_request_values(request, headers_json, body_json, UPSERT_SAVED_REQUEST_SQL)
    }

    /// The query for the saved requests of a collection, or of all
    /// collections where none is named.
    pub fn list_saved_requests(&self, collection_id: Option<&str>) -> (st: SqlStatement)
        ensures
            match collection_id {
                Some(id) => runs(st, LIST_COLLECTION_REQUESTS_SQL, seq![text_param(id@)]),
                None => runs(st, LIST_ALL_REQUESTS_SQL, seq![]),
            },
    {
        match collection_id {
            Some(id) => statement1(LIST_COLLECTION_REQUESTS_SQL, text(id)),
            None => statement0(LIST_ALL_REQUESTS_SQL),
        }
    }

    /// The query for one saved request.
    pub fn get_saved_request(&self, id: &str) -> (st: SqlStatement)
        ensures
            runs(st, GET_SAVED_REQUEST_SQL, seq![text_param(id@)]),
    {
        statement1(GET_SAVED_REQUEST_SQL, text(id))
    }

    /// The saved request a row of `list_saved_requests` or
    /// `get_saved_request` describes.
    pub fn saved_request_from_row(row: SavedRequestRow) -> (r: SavedRequest)
        ensures
            saved_request_of_row(row, r),
    {
        SavedRequest {
            schema_version: row.schema_version as u16,
            id: row.id,
            collection_id: row.collection_id,
            name: row.name,
            method: row.method,
            url: row.url,
            headers: row.headers,
            body: row.body,
            source_flow_id: row.source_flow_id,
            sort_order: row.sort_order,
            created_at: row.created_at,
            updated_at: row.updated_at,
        }
    }

    /// The statements that store an environment, in one transaction: an
    /// active environment first deactivates every other one.
    pub fn upsert_environment(&self, environment: &Environment) -> (r: Vec<SqlStatement>)
        ensures
            environment.is_active ==> r@.len() == 2 && runs(r@[0], CLEAR_ACTIVE_ENVIRONMENT_SQL, seq![])
                && runs(r@[1], UPSERT_ENVIRONMENT_SQL, environment_params(*environment)),
            !environment.is_active ==> r@.len() == 1 && runs(r@[0], UPSERT_ENVIRONMENT_SQL, environment_params(*environment)),
    {
        let upsert = environment_values(environment, UPSERT_ENVIRONMENT_SQL);
        if environment.is_active {
            vec![statement0(CLEAR_ACTIVE_ENVIRONMENT_SQL), upsert]
        } else {
            vec![upsert]
        }
    }

    /// The statement that stores a variable; the value of a secret one is
    /// not stored.
    pub fn upsert_environment_variable(&self, variable: &EnvironmentVariable) -> (st: SqlStatement)
        ensures
            runs(st, UPSERT_VARIABLE_SQL, variable_params(*variable)),
            variable.is_secret ==> params_of(st)[4] == SqlParam::Null,
    {
        variable_values(variable, UPSERT_VARIABLE_SQL)
    }

    /// The statement that stores a preference.
    pub fn set_preference(&self, preference: &AppPreference) -> (st: SqlStatement)
        ensures
            runs(st, SET_PREFERENCE_SQL, seq![text_param(preference.key@), text_param(preference.value@)]),
    {
        statement2(SET_PREFERENCE_SQL, text(preference.key.as_str()), text(preference.value.as_str()))
    }

    /// The statement that stores the state of a step of the first-run guide.
    pub fn upsert_onboarding_step(&self, step: &OnboardingStep) -> (st: SqlStatement)
        ensures
            runs(st, UPSERT_ONBOARDING_STEP_SQL, seq![
                text_param(step.key@),
                flag_param(step.completed),
                opt_text_param(opt_view(step.completed_at)),
            ]),
    {
        crate::storage::statement3(UPSERT_ONBOARDING_STEP_SQL, text(step.key.as_str()), flag(step.completed), opt_text(&step.completed_at))
    }

    /// A new collection of the first workspace schema, created and updated
    /// at `timestamp`, and the statement that stores it.
    pub fn create_collection(&self, id: &str, name: &str, description: Option<&str>, timestamp: &str) -> (r: (Collection, SqlStatement))
        ensures
            r.0.id@ == id@,
            r.0.name@ == name@,
            opt_view(r.0.description) == (match description {
                Some(d) => Some(d@),
                None => None,
            }),
            r.0.created_at@ == timestamp@,
            r.0.updated_at@ == timestamp@,
            runs(r.1, CREATE_COLLECTION_SQL, seq![
                text_param(id@),
                text_param(name@),
                opt_text_param(opt_view(r.0.description)),
                text_param(timestamp@),
                text_param(timestamp@),
            ]),
    {
        let description = match description {
            Some(d) => Some(owned(d)),
            None => None,
        };
        let collection = Collection {
            id: owned(id),
            name: owned(name),
            description,
            created_at: owned(timestamp),
            updated_at: owned(timestamp),
        };
        let params = vec![
            text(collection.id.as_str()),
            text(collection.name.as_str()),
            opt_text(&collection.description),
            text(collection.created_at.as_str()),
            text(collection.updated_at.as_str()),
        ];
        let st = statement(CREATE_COLLECTION_SQL, params);
        assert(params_of(st) =~= seq![
            text_param(id@),
            text_param(name@),
            opt_text_param(opt_view(collection.description)),
            text_param(timestamp@),
            text_param(timestamp@),
        ]);
        (collection, st)
    }

    /// The statement that stores a setting.
    pub fn set_setting(&self, key: &str, value: &str) -> (st: SqlStatement)
        ensures
            runs(st, SET_SETTING_SQL, seq![text_param(key@), text_param(value@)]),
    {
        statement2(SET_SETTING_SQL, text(key), text(value))
    }

    /// The query for a setting.
    pub fn get_setting(&self, key: &str) -> (st: SqlStatement)
        ensures
            runs(st, GET_SETTING_SQL, seq![text_param(key@)]),
    {
        statement1(GET_SETTING_SQL, text(key))
    }
}

// ---------------------------------------------------------------------------
// The assistant's answers
// ---------------------------------------------------------------------------

pub const AI_MIGRATION: &'static str = "
CREATE TABLE IF NOT EXISTS ai_schema_migrations (
    version INTEGER PRIMARY KEY,
    applied_at TEXT NOT NULL DEFAULT CURRENT_TIMESTAMP
);

CREATE TABLE IF NOT EXISTS ai_results (
    id TEXT PRIMARY KEY,
    task_kind TEXT NOT NULL,
    source_ref TEXT NOT NULL,
    provider TEXT NOT NULL,
    model TEXT NOT NULL,
    context_fingerprint TEXT NOT NULL,
    remote_response_id TEXT,
    output_text TEXT NOT NULL,
    created_at TEXT NOT NULL
);

CREATE INDEX IF NOT EXISTS idx_ai_results_source_created
    ON ai_results(source_ref, created_at DESC);
CREATE INDEX IF NOT EXISTS idx_ai_results_fingerprint
    ON ai_results(context_fingerprint, created_at DESC);

INSERT OR IGNORE INTO ai_schema_migrations(version) VALUES (1);
";

pub const INSERT_AI_RESULT_SQL: &'static str = "
            INSERT INTO ai_results (
                id, task_kind, source_ref, provider, model, context_fingerprint,
                remote_response_id, output_text, created_at
            ) VALUES (?1, ?2, ?3, ?4, ?5, ?6, ?7, ?8, ?9)
            ";

pub const LIST_AI_RESULTS_SQL: &'static str = "
            SELECT id, task_kind, source_ref, provider, model, context_fingerprint,
                   remote_response_id, output_text, created_at
            FROM ai_results
            WHERE source_ref = ?1
            ORDER BY created_at DESC, id DESC
            LIMIT ?2
            ";

/// The columns of a stored answer, in the order of the table.
pub open spec fn ai_record_params(r: AiResultRecord) -> Seq<SqlParam> {
    seq![
        text_param(r.id@),
        text_param(r.task_kind@),
        text_param(r.source_ref@),
        text_param(r.provider@),
        text_param(r.model@),
        text_param(r.context_fingerprint@),
        opt_text_param(opt_view(r.remote_response_id)),
        text_param(r.output_text@),
        text_param(r.created_at@),
    ]
}

/// How many answers a listing returns at most: the requested count, kept
/// between 1 and 100.
pub open spec fn ai_page(limit: usize) -> int {
    if limit < 1 {
        1
    } else if limit > 100 {
        100
    } else {
        limit as int
    }
}

impl AiDatabase {
    /// The schema script of the store.
    pub fn initialize(&self) -> (r: &'static str)
        ensures
            r == AI_MIGRATION,
    {
        AI_MIGRATION
    }

    /// The statement that stores an answer.
    pub fn insert(&self, record: &AiResultRecord) -> (st: SqlStatement)
        ensures
            runs(st, INSERT_AI_RESULT_SQL, ai_record_params(*record)),
    {
        let params = vec![
            text(record.id.as_str()),
            text(record.task_kind.as_str()),
            text(record.source_ref.as_str()),
            text(record.provider.as_str()),
            text(record.model.as_str()),
            text(record.context_fingerprint.as_str()),
            opt_text(&record.remote_response_id),
            text(record.output_text.as_str()),
            text(record.created_at.as_str()),
        ];
        let st = statement(INSERT_AI_RESULT_SQL, params);
        assert(params_of(st) =~= ai_record_params(*record));
        st
    }

    /// The query for the newest answers about a source, at most `limit` of
    /// them and never fewer than one or more than a hundred.
    pub fn list_for_source(&self, source_ref: &str, limit: usize) -> (st: SqlStatement)
        ensures
            runs(st, LIST_AI_RESULTS_SQL, seq![text_param(source_ref@), int_param(ai_page(limit))]),
    {
        let page: usize = if limit < 1 {
            1
        } else if limit > 100 {
            100
        } else {
            limit
        };
        statement2(LIST_AI_RESULTS_SQL, text(source_ref), SqlValue::Integer(page as i64))
    }
}

} // verus!
