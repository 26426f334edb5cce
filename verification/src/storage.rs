//! The studio's SQLite stores: their schemas, the statements each
//! operation runs, and how the rows they read become values.
//!
//! Opening a database file and running statements is left to the caller:
//! every operation here returns the statement to run (its SQL and the values
//! bound to its parameters), and the functions that read rows take the
//! column values a query returned.
use vstd::prelude::*;

use crate::model::{
    CaptureSession, FlowSummary, flow_source_name, flow_source_of_name,
    flow_source_from_str, flow_source_to_str, session_status_of_name, session_status_from_str,
};
use crate::ai::{hex_text, lower_hex, sha256, sha256_digest};
use crate::devices::opt_view;
use crate::sdk::{
    SdkEnvelope, SdkEvent, SdkHandshake, SdkPlatform, SdkProtocolError, envelope_problem, event_client_id,
    event_kind, parse_platform, platform_name_of, platform_of_name, platform_string,
};
use crate::text::{copy_opt_string, copy_string, decimal, decimal_chars_wide, owned, string_of, seq_upper, to_upper, trim, trimmed};
use crate::workspace::{Environment, EnvironmentVariable, FlowSearchQuery, SavedCollection};

verus! {

/// A value bound to a statement parameter.
#[derive(Debug, Clone, PartialEq, Eq)]
pub enum SqlValue {
    Null,
    Integer(i64),
    Text(String),
}

/// A statement parameter as a mathematical value.
pub enum SqlParam {
    Null,
    Integer(int),
    Text(Seq<char>),
}

pub open spec fn param_of(v: SqlValue) -> SqlParam {
    match v {
        SqlValue::Null => SqlParam::Null,
        SqlValue::Integer(i) => SqlParam::Integer(i as int),
        SqlValue::Text(s) => SqlParam::Text(s@),
    }
}

/// A statement to run and the values of its parameters `?1`, `?2`, ...
#[derive(Debug, Clone)]
pub struct SqlStatement {
    pub sql: &'static str,
    pub params: Vec<SqlValue>,
}

pub open spec fn params_of(st: SqlStatement) -> Seq<SqlParam> {
    st.params@.map_values(|v: SqlValue| param_of(v))
}

/// `st` runs `sql` with the parameters `params`.
pub open spec fn runs(st: SqlStatement, sql: &'static str, params: Seq<SqlParam>) -> bool {
    st.sql@ == sql@ && params_of(st) == params
}

pub open spec fn text_param(s: Seq<char>) -> SqlParam {
    SqlParam::Text(s)
}

pub open spec fn opt_text_param(s: Option<Seq<char>>) -> SqlParam {
    match s {
        Some(t) => SqlParam::Text(t),
        None => SqlParam::Null,
    }
}

/// A flag as SQLite stores it.
pub open spec fn flag_param(b: bool) -> SqlParam {
    SqlParam::Integer(if b { 1 } else { 0 })
}

pub fn text(s: &str) -> (v: SqlValue)
    ensures
        param_of(v) == SqlParam::Text(s@),
{
    SqlValue::Text(owned(s))
}

pub fn opt_text(s: &Option<String>) -> (v: SqlValue)
    ensures
        param_of(v) == opt_text_param(crate::devices::opt_view(*s)),
{
    match s {
        Some(t) => SqlValue::Text(copy_string(t)),
        None => SqlValue::Null,
    }
}

pub fn flag(b: bool) -> (v: SqlValue)
    ensures
        param_of(v) == flag_param(b),
{
    SqlValue::Integer(if b { 1 } else { 0 })
}

pub(crate) fn statement0(sql: &'static str) -> (st: SqlStatement)
    ensures
        runs(st, sql, seq![]),
{
    let st = SqlStatement { sql, params: Vec::new() };
    assert(params_of(st) =~= seq![]);
    st
}

pub(crate) fn statement1(sql: &'static str, a: SqlValue) -> (st: SqlStatement)
    ensures
        runs(st, sql, seq![param_of(a)]),
{
    let mut params: Vec<SqlValue> = Vec::new();
    params.push(a);
    let st = SqlStatement { sql, params };
    assert(params_of(st) =~= seq![param_of(a)]);
    st
}

pub(crate) fn statement2(sql: &'static str, a: SqlValue, b: SqlValue) -> (st: SqlStatement)
    ensures
        runs(st, sql, seq![param_of(a), param_of(b)]),
{
    let mut params: Vec<SqlValue> = Vec::new();
    params.push(a);
    params.push(b);
    let st = SqlStatement { sql, params };
    assert(params_of(st) =~= seq![param_of(a), param_of(b)]);
    st
}

pub(crate) fn statement3(sql: &'static str, a: SqlValue, b: SqlValue, c: SqlValue) -> (st: SqlStatement)
    ensures
        runs(st, sql, seq![param_of(a), param_of(b), param_of(c)]),
{
    let mut params: Vec<SqlValue> = Vec::new();
    params.push(a);
    params.push(b);
    params.push(c);
    let st = SqlStatement { sql, params };
    assert(params_of(st) =~= seq![param_of(a), param_of(b), param_of(c)]);
    st
}

/// A statement with the parameter values `params`, in order.
pub(crate) fn statement(sql: &'static str, params: Vec<SqlValue>) -> (st: SqlStatement)
    ensures
        st.sql == sql,
        params_of(st) == params@.map_values(|v: SqlValue| param_of(v)),
{
    SqlStatement { sql, params }
}

// ---------------------------------------------------------------------------
// Schemas
// ---------------------------------------------------------------------------

pub const MIGRATION_CORE: &'static str = "
PRAGMA journal_mode = WAL;
PRAGMA foreign_keys = ON;

CREATE TABLE IF NOT EXISTS schema_migrations (
    version INTEGER PRIMARY KEY,
    applied_at TEXT NOT NULL DEFAULT CURRENT_TIMESTAMP
);

CREATE TABLE IF NOT EXISTS sessions (
    id TEXT PRIMARY KEY,
    schema_version INTEGER NOT NULL DEFAULT 1,
    name TEXT NOT NULL,
    status TEXT NOT NULL DEFAULT 'active',
    started_at TEXT NOT NULL,
    ended_at TEXT,
    device_id TEXT,
    app_id TEXT,
    connection_strategy TEXT,
    capture_engine TEXT,
    notes TEXT,
    created_at TEXT NOT NULL DEFAULT CURRENT_TIMESTAMP
);

CREATE TABLE IF NOT EXISTS flows (
    id TEXT PRIMARY KEY,
    schema_version INTEGER NOT NULL,
    session_id TEXT,
    source TEXT NOT NULL,
    method TEXT NOT NULL,
    host TEXT NOT NULL,
    path TEXT NOT NULL,
    status_code INTEGER,
    duration_ms INTEGER,
    response_size_bytes INTEGER,
    started_at TEXT NOT NULL,
    created_at TEXT NOT NULL DEFAULT CURRENT_TIMESTAMP,
    FOREIGN KEY(session_id) REFERENCES sessions(id) ON DELETE CASCADE
);

CREATE TABLE IF NOT EXISTS bodies (
    sha256 TEXT PRIMARY KEY,
    byte_size INTEGER NOT NULL,
    content_type TEXT,
    encoding TEXT,
    is_binary INTEGER NOT NULL DEFAULT 0,
    is_truncated INTEGER NOT NULL DEFAULT 0,
    stored_path TEXT NOT NULL,
    created_at TEXT NOT NULL DEFAULT CURRENT_TIMESTAMP
);

CREATE TABLE IF NOT EXISTS headers (
    id INTEGER PRIMARY KEY AUTOINCREMENT,
    flow_id TEXT NOT NULL,
    side TEXT NOT NULL,
    name TEXT NOT NULL,
    value TEXT NOT NULL,
    is_sensitive INTEGER NOT NULL DEFAULT 0,
    ordinal INTEGER NOT NULL,
    FOREIGN KEY(flow_id) REFERENCES flows(id) ON DELETE CASCADE
);

CREATE INDEX IF NOT EXISTS idx_sessions_started_at
    ON sessions(started_at DESC);
CREATE INDEX IF NOT EXISTS idx_flows_session_started_at
    ON flows(session_id, started_at DESC);
CREATE INDEX IF NOT EXISTS idx_flows_host
    ON flows(host);
CREATE INDEX IF NOT EXISTS idx_flows_status_code
    ON flows(status_code);
CREATE INDEX IF NOT EXISTS idx_flows_method
    ON flows(method);
CREATE INDEX IF NOT EXISTS idx_headers_flow_side
    ON headers(flow_id, side, ordinal);

INSERT OR IGNORE INTO schema_migrations(version) VALUES (1);
";

pub const MIGRATION_DETAILS: &'static str = "
CREATE TABLE IF NOT EXISTS flow_details (
    flow_id TEXT PRIMARY KEY,
    detail_json TEXT NOT NULL,
    updated_at TEXT NOT NULL DEFAULT CURRENT_TIMESTAMP,
    FOREIGN KEY(flow_id) REFERENCES flows(id) ON DELETE CASCADE
);

INSERT OR IGNORE INTO schema_migrations(version) VALUES (2);
";

pub const MIGRATION_WORKSPACE: &'static str = "
CREATE TABLE IF NOT EXISTS flow_endpoint_index (
    flow_id TEXT PRIMARY KEY,
    endpoint_key TEXT NOT NULL,
    method TEXT NOT NULL,
    host TEXT NOT NULL,
    path_template TEXT NOT NULL,
    FOREIGN KEY(flow_id) REFERENCES flows(id) ON DELETE CASCADE
);
CREATE INDEX IF NOT EXISTS idx_flow_endpoint_key ON flow_endpoint_index(endpoint_key);

CREATE TABLE IF NOT EXISTS saved_collections (
    id TEXT PRIMARY KEY,
    schema_version INTEGER NOT NULL,
    name TEXT NOT NULL,
    description TEXT,
    sort_order INTEGER NOT NULL DEFAULT 0,
    created_at TEXT NOT NULL,
    updated_at TEXT NOT NULL
);

CREATE TABLE IF NOT EXISTS saved_requests (
    id TEXT PRIMARY KEY,
    schema_version INTEGER NOT NULL,
    collection_id TEXT NOT NULL,
    name TEXT NOT NULL,
    method TEXT NOT NULL,
    url TEXT NOT NULL,
    headers_json TEXT NOT NULL,
    body_json TEXT,
    source_flow_id TEXT,
    sort_order INTEGER NOT NULL DEFAULT 0,
    created_at TEXT NOT NULL,
    updated_at TEXT NOT NULL,
    FOREIGN KEY(collection_id) REFERENCES saved_collections(id) ON DELETE CASCADE
);
CREATE INDEX IF NOT EXISTS idx_saved_requests_collection ON saved_requests(collection_id, sort_order, created_at);

CREATE TABLE IF NOT EXISTS environments (
    id TEXT PRIMARY KEY,
    schema_version INTEGER NOT NULL,
    name TEXT NOT NULL,
    is_active INTEGER NOT NULL DEFAULT 0,
    created_at TEXT NOT NULL,
    updated_at TEXT NOT NULL
);
CREATE UNIQUE INDEX IF NOT EXISTS idx_environment_name ON environments(name COLLATE NOCASE);

CREATE TABLE IF NOT EXISTS environment_variables (
    id TEXT PRIMARY KEY,
    schema_version INTEGER NOT NULL,
    environment_id TEXT NOT NULL,
    key TEXT NOT NULL,
    value TEXT,
    is_secret INTEGER NOT NULL DEFAULT 0,
    secret_ref TEXT,
    enabled INTEGER NOT NULL DEFAULT 1,
    sort_order INTEGER NOT NULL DEFAULT 0,
    FOREIGN KEY(environment_id) REFERENCES environments(id) ON DELETE CASCADE,
    UNIQUE(environment_id, key)
);
CREATE INDEX IF NOT EXISTS idx_environment_variables_environment
    ON environment_variables(environment_id, sort_order, key);

CREATE TABLE IF NOT EXISTS app_preferences (
    key TEXT PRIMARY KEY,
    value TEXT NOT NULL,
    updated_at TEXT NOT NULL DEFAULT CURRENT_TIMESTAMP
);

CREATE TABLE IF NOT EXISTS onboarding_steps (
    key TEXT PRIMARY KEY,
    completed INTEGER NOT NULL DEFAULT 0,
    completed_at TEXT
);

INSERT OR IGNORE INTO schema_migrations(version) VALUES (3);
";

/// The first workspace schema, whose collections and settings tables the
/// later one did not replace; its other tables already exist by then.
pub const MIGRATION_COLLECTIONS: &'static str = "
CREATE TABLE IF NOT EXISTS collections (
    id TEXT PRIMARY KEY,
    name TEXT NOT NULL,
    description TEXT,
    created_at TEXT NOT NULL,
    updated_at TEXT NOT NULL
);

CREATE TABLE IF NOT EXISTS saved_requests (
    id TEXT PRIMARY KEY,
    collection_id TEXT NOT NULL,
    name TEXT NOT NULL,
    method TEXT NOT NULL,
    url TEXT NOT NULL,
    headers_json TEXT NOT NULL,
    body_json TEXT,
    source_flow_id TEXT,
    created_at TEXT NOT NULL,
    updated_at TEXT NOT NULL,
    FOREIGN KEY(collection_id) REFERENCES collections(id) ON DELETE CASCADE
);

CREATE INDEX IF NOT EXISTS idx_saved_requests_collection
    ON saved_requests(collection_id, updated_at DESC);

CREATE TABLE IF NOT EXISTS environments (
    id TEXT PRIMARY KEY,
    name TEXT NOT NULL,
    is_active INTEGER NOT NULL DEFAULT 0,
    created_at TEXT NOT NULL,
    updated_at TEXT NOT NULL
);

CREATE TABLE IF NOT EXISTS environment_variables (
    environment_id TEXT NOT NULL,
    key TEXT NOT NULL,
    value TEXT,
    is_secret INTEGER NOT NULL DEFAULT 0,
    secret_ref TEXT,
    enabled INTEGER NOT NULL DEFAULT 1,
    PRIMARY KEY(environment_id, key),
    FOREIGN KEY(environment_id) REFERENCES environments(id) ON DELETE CASCADE
);

CREATE TABLE IF NOT EXISTS app_settings (
    key TEXT PRIMARY KEY,
    value TEXT NOT NULL,
    updated_at TEXT NOT NULL DEFAULT CURRENT_TIMESTAMP
);

INSERT OR IGNORE INTO schema_migrations(version) VALUES (3);
";

pub const MIGRATION_MOCKS: &'static str = "
CREATE TABLE IF NOT EXISTS mock_rules (
    id TEXT PRIMARY KEY,
    schema_version INTEGER NOT NULL,
    rule_json TEXT NOT NULL,
    enabled INTEGER NOT NULL DEFAULT 1,
    priority INTEGER NOT NULL DEFAULT 0,
    created_at TEXT NOT NULL,
    updated_at TEXT NOT NULL
);

CREATE INDEX IF NOT EXISTS idx_mock_rules_enabled_priority
    ON mock_rules(enabled, priority, created_at, id);

INSERT OR IGNORE INTO schema_migrations(version) VALUES (4);
";

pub const MOCK_MIGRATION: &'static str = "
PRAGMA journal_mode = WAL;
PRAGMA foreign_keys = ON;

CREATE TABLE IF NOT EXISTS mock_schema_migrations (
    version INTEGER PRIMARY KEY,
    applied_at TEXT NOT NULL DEFAULT CURRENT_TIMESTAMP
);

CREATE TABLE IF NOT EXISTS mock_rules (
    id TEXT PRIMARY KEY,
    schema_version INTEGER NOT NULL,
    rule_json TEXT NOT NULL,
    enabled INTEGER NOT NULL DEFAULT 1,
    priority INTEGER NOT NULL DEFAULT 0,
    created_at TEXT NOT NULL,
    updated_at TEXT NOT NULL
);

CREATE INDEX IF NOT EXISTS idx_mock_rules_enabled_priority
    ON mock_rules(enabled, priority, created_at, id);

INSERT OR IGNORE INTO mock_schema_migrations(version) VALUES (1);
";

pub const FIXTURE_MIGRATION: &'static str = "
PRAGMA journal_mode = WAL;
PRAGMA foreign_keys = ON;

CREATE TABLE IF NOT EXISTS mock_fixture_schema_migrations (
    version INTEGER PRIMARY KEY,
    applied_at TEXT NOT NULL DEFAULT CURRENT_TIMESTAMP
);

CREATE TABLE IF NOT EXISTS mock_fixtures (
    id TEXT PRIMARY KEY,
    schema_version INTEGER NOT NULL,
    name TEXT NOT NULL,
    fixture_json TEXT NOT NULL,
    created_at TEXT NOT NULL,
    updated_at TEXT NOT NULL
);

CREATE INDEX IF NOT EXISTS idx_mock_fixtures_name
    ON mock_fixtures(name COLLATE NOCASE, created_at, id);

INSERT OR IGNORE INTO mock_fixture_schema_migrations(version) VALUES (1);
";

pub const SDK_MIGRATION: &'static str = "
PRAGMA journal_mode = WAL;
PRAGMA foreign_keys = ON;

CREATE TABLE IF NOT EXISTS sdk_schema_migrations (
    version INTEGER PRIMARY KEY,
    applied_at TEXT NOT NULL DEFAULT CURRENT_TIMESTAMP
);

CREATE TABLE IF NOT EXISTS sdk_clients (
    client_id TEXT PRIMARY KEY,
    app_id TEXT NOT NULL,
    app_name TEXT NOT NULL,
    app_version TEXT,
    app_build TEXT,
    platform TEXT NOT NULL,
    device_name TEXT,
    os_version TEXT,
    sdk_version TEXT NOT NULL,
    first_seen_at TEXT NOT NULL,
    last_seen_at TEXT NOT NULL
);

CREATE TABLE IF NOT EXISTS sdk_events (
    event_id TEXT PRIMARY KEY,
    schema_version INTEGER NOT NULL,
    client_id TEXT NOT NULL,
    event_kind TEXT NOT NULL,
    request_id TEXT,
    occurred_at TEXT NOT NULL,
    payload_json TEXT NOT NULL,
    created_at TEXT NOT NULL DEFAULT CURRENT_TIMESTAMP
);

CREATE INDEX IF NOT EXISTS idx_sdk_events_request_id
    ON sdk_events(request_id, occurred_at, event_id);
CREATE INDEX IF NOT EXISTS idx_sdk_events_client_time
    ON sdk_events(client_id, occurred_at, event_id);
CREATE INDEX IF NOT EXISTS idx_sdk_events_kind
    ON sdk_events(event_kind, occurred_at);
CREATE INDEX IF NOT EXISTS idx_sdk_clients_last_seen
    ON sdk_clients(last_seen_at DESC);

INSERT OR IGNORE INTO sdk_schema_migrations(version) VALUES (1);
";

// ---------------------------------------------------------------------------
// Statements of the traffic database
// ---------------------------------------------------------------------------

pub const COUNT_FLOWS_SQL: &'static str = "SELECT COUNT(*) FROM flows";

pub const LIST_SESSIONS_SQL: &'static str = "
            SELECT
                schema_version,
                id,
                name,
                status,
                started_at,
                ended_at,
                device_id,
                app_id,
                connection_strategy,
                capture_engine,
                notes
            FROM sessions
            ORDER BY started_at DESC
            LIMIT ?1
            ";

pub const LIST_FLOWS_SQL: &'static str = "
            SELECT
                schema_version,
                id,
                session_id,
                source,
                method,
                host,
                path,
                status_code,
                duration_ms,
                response_size_bytes,
                started_at
            FROM flows
            ORDER BY started_at DESC
            LIMIT ?1
            ";

pub const ARCHIVE_SESSION_SQL: &'static str = "UPDATE sessions SET status = 'archived' WHERE id = ?1";

pub const DELETE_SESSION_SQL: &'static str = "DELETE FROM sessions WHERE id = ?1";

/// The traffic database: sessions, flows, their details, the workspace
/// and the mock rules, in one SQLite file.
#[derive(Debug, Clone)]
pub struct Database {
    path: String,
}

/// A session as the `sessions` table returns it.
pub struct SessionRow {
    pub schema_version: i64,
    pub id: String,
    pub name: String,
    pub status: String,
    pub started_at: String,
    pub ended_at: Option<String>,
    pub device_id: Option<String>,
    pub app_id: Option<String>,
    pub connection_strategy: Option<String>,
    pub capture_engine: Option<String>,
    pub notes: Option<String>,
}

/// A flow as the `flows` table returns it.
pub struct FlowRow {
    pub schema_version: i64,
    pub id: String,
    pub session_id: Option<String>,
    pub source: String,
    pub method: String,
    pub host: String,
    pub path: String,
    pub status_code: Option<i64>,
    pub duration_ms: Option<i64>,
    pub response_size_bytes: Option<i64>,
    pub started_at: String,
}

pub open spec fn session_of_row(row: SessionRow, s: CaptureSession) -> bool {
    &&& s.schema_version == row.schema_version as u16
    &&& s.id == row.id
    &&& s.name == row.name
    &&& s.status == session_status_of_name(row.status@)
    &&& s.started_at == row.started_at
    &&& s.ended_at == row.ended_at
    &&& s.device_id == row.device_id
    &&& s.app_id == row.app_id
    &&& s.connection_strategy == row.connection_strategy
    &&& s.capture_engine == row.capture_engine
    &&& s.notes == row.notes
}

pub open spec fn narrow_u16(v: Option<i64>) -> Option<u16> {
    match v {
        Some(x) => Some(x as u16),
        None => None,
    }
}

pub open spec fn narrow_u64(v: Option<i64>) -> Option<u64> {
    match v {
        Some(x) => Some(x as u64),
        None => None,
    }
}

pub open spec fn flow_of_row(row: FlowRow, f: FlowSummary) -> bool {
    &&& f.schema_version == row.schema_version as u16
    &&& f.id == row.id
    &&& f.session_id == row.session_id
    &&& f.source == flow_source_of_name(row.source@)
    &&& f.method == row.method
    &&& f.host == row.host
    &&& f.path == row.path
    &&& f.status_code == narrow_u16(row.status_code)
    &&& f.duration_ms == narrow_u64(row.duration_ms)
    &&& f.response_size_bytes == narrow_u64(row.response_size_bytes)
    &&& f.started_at == row.started_at
}

impl Database {
    pub closed spec fn location(&self) -> Seq<char> {
        self.path@
    }

    /// The database kept in the file at `path`.
    pub fn new(path: &str) -> (d: Self)
        ensures
            d.location() == path@,
    {
        Database { path: owned(path) }
    }

    pub fn path(&self) -> (r: &str)
        ensures
            r@ == self.location(),
    {
        self.path.as_str()
    }

    /// The schema scripts that bring a database file up to date, in the
    /// order they run; each can run again on an up-to-date file.
    pub fn initialize(&self) -> (r: Vec<&'static str>)
        ensures
            r@ == seq![MIGRATION_CORE, MIGRATION_DETAILS, MIGRATION_WORKSPACE, MIGRATION_COLLECTIONS, MIGRATION_MOCKS],
    {
        let mut r: Vec<&'static str> = Vec::new();
        r.push(MIGRATION_CORE);
        r.push(MIGRATION_DETAILS);
        r.push(MIGRATION_WORKSPACE);
        r.push(MIGRATION_COLLECTIONS);
        r.push(MIGRATION_MOCKS);
        r
    }

    /// The query counting the recorded flows.
    pub fn count_flows(&self) -> (st: SqlStatement)
        ensures
            runs(st, COUNT_FLOWS_SQL, seq![]),
    {
        statement0(COUNT_FLOWS_SQL)
    }

    /// Whether no flow is recorded, given the count of `count_flows`.
    pub fn is_empty(&self, flow_count: i64) -> (r: bool)
        ensures
            r == (flow_count == 0),
    {
        flow_count == 0
    }

    /// The query for the newest sessions, at most `limit` of them.
    pub fn list_sessions(&self, limit: usize) -> (st: SqlStatement)
        ensures
            runs(st, LIST_SESSIONS_SQL, seq![SqlParam::Integer(limit as i64 as int)]),
    {
        statement1(LIST_SESSIONS_SQL, SqlValue::Integer(limit as i64))
    }

    /// The session a row of `list_sessions` describes; an unknown status
    /// reads as active.
    pub fn session_from_row(row: SessionRow) -> (s: CaptureSession)
        ensures
            session_of_row(row, s),
    {
        let status = session_status_from_str(row.status.as_str());
        CaptureSession {
            schema_version: row.schema_version as u16,
            id: row.id,
            name: row.name,
            status,
            started_at: row.started_at,
            ended_at: row.ended_at,
            device_id: row.device_id,
            app_id: row.app_id,
            connection_strategy: row.connection_strategy,
            capture_engine: row.capture_engine,
            notes: row.notes,
        }
    }

    /// The query for the newest flows, at most `limit` of them.
    pub fn list_flows(&self, limit: usize) -> (st: SqlStatement)
        ensures
            runs(st, LIST_FLOWS_SQL, seq![SqlParam::Integer(limit as i64 as int)]),
    {
        statement1(LIST_FLOWS_SQL, SqlValue::Integer(limit as i64))
    }

    /// The flow a row of `list_flows` or `search_flows` describes; an
    /// unknown source reads as a fixture.
    pub fn flow_from_row(row: FlowRow) -> (f: FlowSummary)
        ensures
            flow_of_row(row, f),
    {
        let source = flow_source_from_str(row.source.as_str());
        let status_code = match row.status_code {
            Some(v) => Some(v as u16),
            None => None,
        };
        let duration_ms = match row.duration_ms {
            Some(v) => Some(v as u64),
            None => None,
        };
        let response_size_bytes = match row.response_size_bytes {
            Some(v) => Some(v as u64),
            None => None,
        };
        FlowSummary {
            schema_version: row.schema_version as u16,
            id: row.id,
            session_id: row.session_id,
            source,
            method: row.method,
            host: row.host,
            path: row.path,
            status_code,
            duration_ms,
            response_size_bytes,
            started_at: row.started_at,
        }
    }

    /// The statement that marks a session archived.
    pub fn archive_session(&self, id: &str) -> (st: SqlStatement)
        ensures
            runs(st, ARCHIVE_SESSION_SQL, seq![text_param(id@)]),
    {
        statement1(ARCHIVE_SESSION_SQL, text(id))
    }

    /// The statement that deletes a session and, through the schema's
    /// cascades, its flows.
    pub fn delete_session(&self, id: &str) -> (st: SqlStatement)
        ensures
            runs(st, DELETE_SESSION_SQL, seq![text_param(id@)]),
    {
        statement1(DELETE_SESSION_SQL, text(id))
    }

    /// Whether a statement that reported `changed` rows changed any.
    pub fn changed_any(changed: usize) -> (r: bool)
        ensures
            r == (changed > 0),
    {
        changed > 0
    }
}

// ---------------------------------------------------------------------------
// Searching flows
// ---------------------------------------------------------------------------

pub const SEARCH_FLOWS_SQL: &'static str = "
            SELECT
                schema_version,
                id,
                session_id,
                source,
                method,
                host,
                path,
                status_code,
                duration_ms,
                response_size_bytes,
                started_at
            FROM flows
            WHERE
                (?1 IS NULL OR lower(method || ' ' || host || path) LIKE '%' || lower(?1) || '%')
                AND (?2 IS NULL OR session_id = ?2)
                AND (?3 IS NULL OR method = ?3)
                AND (?4 IS NULL OR source = ?4)
                AND (?5 IS NULL OR status_code >= ?5)
                AND (?6 IS NULL OR status_code <= ?6)
                AND (?7 IS NULL OR duration_ms >= ?7)
                AND (?8 IS NULL OR duration_ms <= ?8)
            ORDER BY started_at DESC
            LIMIT ?9 OFFSET ?10
            ";

/// A text filter: trimmed, and absent where nothing is left.
pub open spec fn trimmed_filter(o: Option<Seq<char>>) -> Option<Seq<char>> {
    match o {
        Some(t) => if trim(t).len() > 0 { Some(trim(t)) } else { None },
        None => None,
    }
}

/// A filter that counts only where it is not empty.
pub open spec fn nonempty_filter(o: Option<Seq<char>>) -> Option<Seq<char>> {
    match o {
        Some(t) => if t.len() > 0 { Some(t) } else { None },
        None => None,
    }
}

pub open spec fn opt_int_param(o: Option<int>) -> SqlParam {
    match o {
        Some(i) => SqlParam::Integer(i),
        None => SqlParam::Null,
    }
}

/// The page size of a search: the requested one, kept between 1 and 5000.
pub open spec fn search_limit(limit: usize) -> int {
    if limit < 1 {
        1
    } else if limit > 5000 {
        5000
    } else {
        limit as int
    }
}

/// The parameters of the search query for `q`: the text (matched without
/// regard to case against method, host and path), the session, the method
/// (upper case), the source, the range of status codes of the status class,
/// the range of durations, the page size and the offset.
pub open spec fn search_params(q: FlowSearchQuery) -> Seq<SqlParam> {
    let method = match trimmed_filter(opt_view(q.method)) {
        Some(m) => Some(seq_upper(m)),
        None => None,
    };
    seq![
        opt_text_param(trimmed_filter(opt_view(q.text))),
        opt_text_param(nonempty_filter(opt_view(q.session_id))),
        opt_text_param(method),
        opt_text_param(
            match q.source {
                Some(src) => Some(flow_source_name(src)),
                None => None,
            },
        ),
        opt_int_param(
            match q.status_class {
                Some(c) => Some(c * 100),
                None => None,
            },
        ),
        opt_int_param(
            match q.status_class {
                Some(c) => Some(c * 100 + 99),
                None => None,
            },
        ),
        opt_int_param(
            match q.min_duration_ms {
                Some(d) => Some(d as i64 as int),
                None => None,
            },
        ),
        opt_int_param(
            match q.max_duration_ms {
                Some(d) => Some(d as i64 as int),
                None => None,
            },
        ),
        SqlParam::Integer(search_limit(q.limit)),
        SqlParam::Integer(q.offset as i64 as int),
    ]
}

fn push_param(params: &mut Vec<SqlValue>, v: SqlValue)
    ensures
        final(params)@.map_values(|v: SqlValue| param_of(v)) == old(params)@.map_values(
            |v: SqlValue| param_of(v),
        ).push(param_of(v)),
{
    params.push(v);
    assert(params@.map_values(|v: SqlValue| param_of(v)) =~= old(params)@.map_values(
        |v: SqlValue| param_of(v),
    ).push(param_of(v)));
}

fn trimmed_text(o: &Option<String>) -> (v: SqlValue)
    ensures
        param_of(v) == opt_text_param(trimmed_filter(opt_view(*o))),
{
    match o {
        Some(t) => {
            let x = trimmed(t.as_str());
            if x.as_str().unicode_len() > 0 {
                SqlValue::Text(x)
            } else {
                SqlValue::Null
            }
        },
        None => SqlValue::Null,
    }
}

fn opt_int(o: Option<i64>) -> (v: SqlValue)
    ensures
        param_of(v) == opt_int_param(
            match o {
                Some(i) => Some(i as int),
                None => None,
            },
        ),
{
    match o {
        Some(i) => SqlValue::Integer(i),
        None => SqlValue::Null,
    }
}

impl Database {
    /// The query that searches the flows for `query`, newest first.
    pub fn search_flows(&self, query: &FlowSearchQuery) -> (st: SqlStatement)
        ensures
            runs(st, SEARCH_FLOWS_SQL, search_params(*query)),
    {
        let mut params: Vec<SqlValue> = Vec::new();
        push_param(&mut params, trimmed_text(&query.text));
        let session = match &query.session_id {
            Some(id) => if id.as_str().unicode_len() > 0 {
                SqlValue::Text(copy_string(id))
            } else {
                SqlValue::Null
            },
            None => SqlValue::Null,
        };
        push_param(&mut params, session);
        let method = match &query.method {
            Some(m) => {
                let t = trimmed(m.as_str());
                if t.as_str().unicode_len() > 0 {
                    SqlValue::Text(to_upper(t.as_str()))
                } else {
                    SqlValue::Null
                }
            },
            None => SqlValue::Null,
        };
        push_param(&mut params, method);
        let source = match &query.source {
            Some(src) => text(flow_source_to_str(src)),
            None => SqlValue::Null,
        };
        push_param(&mut params, source);
        let (low, high) = match query.status_class {
            Some(c) => (Some(c as i64 * 100), Some(c as i64 * 100 + 99)),
            None => (None, None),
        };
        push_param(&mut params, opt_int(low));
        push_param(&mut params, opt_int(high));
        let shortest = match query.min_duration_ms {
            Some(d) => Some(d as i64),
            None => None,
        };
        let longest = match query.max_duration_ms {
            Some(d) => Some(d as i64),
            None => None,
        };
        push_param(&mut params, opt_int(shortest));
        push_param(&mut params, opt_int(longest));
        let limit: usize = if query.limit < 1 {
            1
        } else if query.limit > 5000 {
            5000
        } else {
            query.limit
        };
        push_param(&mut params, SqlValue::Integer(limit as i64));
        push_param(&mut params, SqlValue::Integer(query.offset as i64));
        let st = SqlStatement { sql: SEARCH_FLOWS_SQL, params };
        assert(params_of(st) =~= search_params(*query));
        st
    }
}

// ---------------------------------------------------------------------------
// The workspace tables
// ---------------------------------------------------------------------------

pub const LIST_COLLECTIONS_SQL: &'static str = "
            SELECT schema_version, id, name, description, sort_order, created_at, updated_at
            FROM saved_collections ORDER BY sort_order ASC, created_at ASC
            ";

pub const DELETE_COLLECTION_SQL: &'static str = "DELETE FROM saved_collections WHERE id = ?1";

pub const DELETE_SAVED_REQUEST_SQL: &'static str = "DELETE FROM saved_requests WHERE id = ?1";

pub const CLEAR_ACTIVE_ENVIRONMENT_SQL: &'static str = "UPDATE environments SET is_active = 0";

pub const ACTIVATE_ENVIRONMENT_SQL: &'static str = "UPDATE environments SET is_active = 1 WHERE id = ?1";

pub const LIST_ENVIRONMENTS_SQL: &'static str = "SELECT schema_version, id, name, is_active, created_at, updated_at FROM environments ORDER BY is_active DESC, name COLLATE NOCASE ASC";

pub const GET_ACTIVE_ENVIRONMENT_SQL: &'static str = "SELECT schema_version, id, name, is_active, created_at, updated_at FROM environments WHERE is_active = 1 LIMIT 1";

pub const DELETE_ENVIRONMENT_SQL: &'static str = "DELETE FROM environments WHERE id = ?1";

pub const LIST_ENVIRONMENT_VARIABLES_SQL: &'static str = "
            SELECT schema_version, id, environment_id, key, value, is_secret, secret_ref, enabled, sort_order
            FROM environment_variables WHERE environment_id = ?1
            ORDER BY sort_order ASC, key COLLATE NOCASE ASC
            ";

pub const DELETE_ENVIRONMENT_VARIABLE_SQL: &'static str = "DELETE FROM environment_variables WHERE id = ?1";

pub const GET_PREFERENCE_SQL: &'static str = "SELECT key, value FROM app_preferences WHERE key = ?1";

pub const LIST_ONBOARDING_STEPS_SQL: &'static str = "SELECT key, completed, completed_at FROM onboarding_steps ORDER BY key ASC";

/// A saved collection as the `saved_collections` table returns it.
pub struct CollectionRow {
    pub schema_version: i64,
    pub id: String,
    pub name: String,
    pub description: Option<String>,
    pub sort_order: i64,
    pub created_at: String,
    pub updated_at: String,
}

/// An environment as the `environments` table returns it.
pub struct EnvironmentRow {
    pub schema_version: i64,
    pub id: String,
    pub name: String,
    pub is_active: bool,
    pub created_at: String,
    pub updated_at: String,
}

/// A variable as the `environment_variables` table returns it.
pub struct VariableRow {
    pub schema_version: i64,
    pub id: String,
    pub environment_id: String,
    pub key: String,
    pub value: Option<String>,
    pub is_secret: bool,
    pub secret_ref: Option<String>,
    pub enabled: bool,
    pub sort_order: i64,
}

/// A variable of an environment together with the reference under which
/// the secret store keeps its value, where it is secret.
#[derive(Debug, Clone)]
pub struct StoredEnvironmentVariable {
    pub variable: EnvironmentVariable,
    pub secret_ref: Option<String>,
}

/// A stored preference: a key and its value.
#[derive(Debug, Clone, PartialEq, Eq)]
pub struct AppPreference {
    pub key: String,
    pub value: String,
}

pub open spec fn environment_of_row(row: EnvironmentRow, e: Environment) -> bool {
    &&& e.schema_version == row.schema_version as u16
    &&& e.id == row.id
    &&& e.name == row.name
    &&& e.is_active == row.is_active
    &&& e.created_at == row.created_at
    &&& e.updated_at == row.updated_at
}

impl Database {
    /// The query for the saved collections, in their order.
    pub fn list_collections(&self) -> (st: SqlStatement)
        ensures
            runs(st, LIST_COLLECTIONS_SQL, seq![]),
    {
        statement0(LIST_COLLECTIONS_SQL)
    }

    /// The collection a row of `list_collections` describes.
    pub fn collection_from_row(row: CollectionRow) -> (c: SavedCollection)
        ensures
            c.schema_version == row.schema_version as u16,
            c.id == row.id,
            c.name == row.name,
            c.description == row.description,
            c.sort_order == row.sort_order,
            c.created_at == row.created_at,
            c.updated_at == row.updated_at,
    {
        SavedCollection {
            schema_version: row.schema_version as u16,
            id: row.id,
            name: row.name,
            description: row.description,
            sort_order: row.sort_order,
            created_at: row.created_at,
            updated_at: row.updated_at,
        }
    }

    /// The statement that deletes a collection and, through the schema's
    /// cascades, its saved requests.
    pub fn delete_collection(&self, id: &str) -> (st: SqlStatement)
        ensures
            runs(st, DELETE_COLLECTION_SQL, seq![text_param(id@)]),
    {
        statement1(DELETE_COLLECTION_SQL, text(id))
    }

    pub fn delete_saved_request(&self, id: &str) -> (st: SqlStatement)
        ensures
            runs(st, DELETE_SAVED_REQUEST_SQL, seq![text_param(id@)]),
    {
        statement1(DELETE_SAVED_REQUEST_SQL, text(id))
    }

    /// The statements, run in one transaction, that make `id` the only
    /// active environment, or leave none active.
    pub fn set_active_environment(&self, id: Option<&str>) -> (r: Vec<SqlStatement>)
        ensures
            r@.len() == if id is Some { 2int } else { 1int },
            runs(r@[0], CLEAR_ACTIVE_ENVIRONMENT_SQL, seq![]),
            id matches Some(i) ==> runs(r@[1], ACTIVATE_ENVIRONMENT_SQL, seq![text_param(i@)]),
    {
        let mut r: Vec<SqlStatement> = Vec::new();
        r.push(statement0(CLEAR_ACTIVE_ENVIRONMENT_SQL));
        match id {
            Some(i) => {
                r.push(statement1(ACTIVATE_ENVIRONMENT_SQL, text(i)));
            },
            None => {},
        }
        r
    }

    /// The query for the environments, the active one first, then by name.
    pub fn list_environments(&self) -> (st: SqlStatement)
        ensures
            runs(st, LIST_ENVIRONMENTS_SQL, seq![]),
    {
        statement0(LIST_ENVIRONMENTS_SQL)
    }

    /// The environment a row of `list_environments` describes.
    pub fn environment_from_row(row: EnvironmentRow) -> (e: Environment)
        ensures
            environment_of_row(row, e),
    {
        Environment {
            schema_version: row.schema_version as u16,
            id: row.id,
            name: row.name,
            is_active: row.is_active,
            created_at: row.created_at,
            updated_at: row.updated_at,
        }
    }

    /// The query for the active environment.
    pub fn get_active_environment(&self) -> (st: SqlStatement)
        ensures
            runs(st, GET_ACTIVE_ENVIRONMENT_SQL, seq![]),
    {
        statement0(GET_ACTIVE_ENVIRONMENT_SQL)
    }

    pub fn delete_environment(&self, id: &str) -> (st: SqlStatement)
        ensures
            runs(st, DELETE_ENVIRONMENT_SQL, seq![text_param(id@)]),
    {
        statement1(DELETE_ENVIRONMENT_SQL, text(id))
    }

    /// The query for the variables of an environment, in their order.
    pub fn list_environment_variables(&self, environment_id: &str) -> (st: SqlStatement)
        ensures
            runs(st, LIST_ENVIRONMENT_VARIABLES_SQL, seq![text_param(environment_id@)]),
    {
        statement1(LIST_ENVIRONMENT_VARIABLES_SQL, text(environment_id))
    }

    /// The variable a row of `list_environment_variables` describes; the
    /// value of a secret variable is never read from the table.
    pub fn variable_from_row(row: VariableRow) -> (v: StoredEnvironmentVariable)
        ensures
            v.variable.schema_version == row.schema_version as u16,
            v.variable.id == row.id,
            v.variable.environment_id == row.environment_id,
            v.variable.key == row.key,
            v.variable.value == (if row.is_secret { None } else { row.value }),
            v.variable.is_secret == row.is_secret,
            v.variable.secret_ref == row.secret_ref,
            v.variable.enabled == row.enabled,
            v.variable.sort_order == row.sort_order,
            v.secret_ref == row.secret_ref,
    {
        let secret_ref = copy_opt_string(&row.secret_ref);
        let value = if row.is_secret { None } else { row.value };
        StoredEnvironmentVariable {
            variable: EnvironmentVariable {
                schema_version: row.schema_version as u16,
                id: row.id,
                environment_id: row.environment_id,
                key: row.key,
                value,
                is_secret: row.is_secret,
                secret_ref: row.secret_ref,
                enabled: row.enabled,
                sort_order: row.sort_order,
            },
            secret_ref,
        }
    }

    pub fn delete_environment_variable(&self, id: &str) -> (st: SqlStatement)
        ensures
            runs(st, DELETE_ENVIRONMENT_VARIABLE_SQL, seq![text_param(id@)]),
    {
        statement1(DELETE_ENVIRONMENT_VARIABLE_SQL, text(id))
    }

    /// The query for a stored preference.
    pub fn get_preference(&self, key: &str) -> (st: SqlStatement)
        ensures
            runs(st, GET_PREFERENCE_SQL, seq![text_param(key@)]),
    {
        statement1(GET_PREFERENCE_SQL, text(key))
    }

    /// The query for the steps of the first-run guide, by key.
    pub fn list_onboarding_steps(&self) -> (st: SqlStatement)
        ensures
            runs(st, LIST_ONBOARDING_STEPS_SQL, seq![]),
    {
        statement0(LIST_ONBOARDING_STEPS_SQL)
    }
}

// ---------------------------------------------------------------------------
// The body store
// ---------------------------------------------------------------------------

/// `PathBuf::join` of a relative part: a separator goes between the two
/// unless the base is empty or already ends with one.
pub open spec fn join_path(base: Seq<char>, part: Seq<char>) -> Seq<char> {
    if base.len() == 0 {
        part
    } else if base.last() == '/' {
        base + part
    } else {
        base + "/"@ + part
    }
}

/// Where the body with the hexadecimal digest `hash` is kept under `root`:
/// in a directory named by its first two characters, inside one named by
/// the next two, in a file named by the digest.
pub open spec fn body_path(root: Seq<char>, hash: Seq<char>) -> Seq<char> {
    join_path(join_path(join_path(root, hash.subrange(0, 2)), hash.subrange(2, 4)), hash + ".body"@)
}

/// Captured bodies, each kept once, in a file named by its SHA-256 digest.
#[derive(Debug, Clone)]
pub struct BodyStore {
    root: String,
}

/// A body as the store keeps it.
#[derive(Debug, Clone)]
pub struct StoredBody {
    pub sha256: String,
    pub byte_size: u64,
    pub path: String,
}

pub(crate) fn join(base: &str, part: &str) -> (r: String)
    ensures
        r@ == join_path(base@, part@),
{
    let b = crate::text::chars_of(base);
    if b.len() == 0 {
        owned(part)
    } else if b[b.len() - 1] == '/' {
        crate::text::concat2(base, part)
    } else {
        let mut v = b;
        crate::text::extend_str(&mut v, "/");
        crate::text::extend_str(&mut v, part);
        crate::text::string_of(&v)
    }
}

impl BodyStore {
    pub closed spec fn location(&self) -> Seq<char> {
        self.root@
    }

    /// The store whose files are under the directory `root`.
    pub fn new(root: &str) -> (s: Self)
        ensures
            s.location() == root@,
    {
        BodyStore { root: owned(root) }
    }

    pub fn root(&self) -> (r: &str)
        ensures
            r@ == self.location(),
    {
        self.root.as_str()
    }

    /// Where the store keeps `bytes`: their digest, size and file; the file
    /// is written only where it does not exist yet.
    pub fn put(&self, bytes: &[u8]) -> (r: StoredBody)
        ensures
            r.sha256@ == hex_text(sha256_digest(bytes@)),
            r.byte_size == bytes@.len(),
            r.path@ == body_path(self.location(), r.sha256@),
    {
        let digest = sha256(bytes);
        let hash = lower_hex(&digest);
        let h = crate::text::chars_of(hash.as_str());
        proof {
            crate::ai::lemma_hex_text_len(digest@);
        }
        let first = crate::text::string_of(&crate::text::slice_chars(&h, 0, 2));
        let second = crate::text::string_of(&crate::text::slice_chars(&h, 2, 4));
        let outer = join(self.root.as_str(), first.as_str());
        let directory = join(outer.as_str(), second.as_str());
        let name = crate::text::concat2(hash.as_str(), ".body");
        let path = join(directory.as_str(), name.as_str());
        StoredBody { sha256: hash, byte_size: bytes.len() as u64, path }
    }
}

// ---------------------------------------------------------------------------
// The mock rule and fixture stores
// ---------------------------------------------------------------------------

pub const SET_RULE_ENABLED_SQL: &'static str = "UPDATE mock_rules SET enabled = ?2, updated_at = CURRENT_TIMESTAMP WHERE id = ?1";

pub const SET_RULE_PRIORITY_SQL: &'static str = "UPDATE mock_rules SET priority = ?2, updated_at = CURRENT_TIMESTAMP WHERE id = ?1";

pub const DELETE_RULE_SQL: &'static str = "DELETE FROM mock_rules WHERE id = ?1";

pub const DISABLE_ALL_RULES_SQL: &'static str = "UPDATE mock_rules SET enabled = 0, updated_at = CURRENT_TIMESTAMP WHERE enabled != 0";

pub const LIST_RULES_SQL: &'static str = "
            SELECT rule_json, enabled, priority
            FROM mock_rules
            ORDER BY priority ASC, created_at ASC, id ASC
            ";

pub const LIST_FIXTURES_SQL: &'static str = "SELECT fixture_json FROM mock_fixtures ORDER BY name COLLATE NOCASE ASC, created_at ASC, id ASC";

pub const GET_FIXTURE_SQL: &'static str = "SELECT fixture_json FROM mock_fixtures WHERE id = ?1";

pub const DELETE_FIXTURE_SQL: &'static str = "DELETE FROM mock_fixtures WHERE id = ?1";

/// The store of mock rules, kept beside the traffic database.
#[derive(Debug, Clone)]
pub struct MockDatabase {
    path: String,
}

impl MockDatabase {
    pub closed spec fn location(&self) -> Seq<char> {
        self.path@
    }

    pub fn new(path: &str) -> (d: Self)
        ensures
            d.location() == path@,
    {
        MockDatabase { path: owned(path) }
    }

    pub fn path(&self) -> (r: &str)
        ensures
            r@ == self.location(),
    {
        self.path.as_str()
    }

    /// The schema script of the store.
    pub fn initialize(&self) -> (r: &'static str)
        ensures
            r == MOCK_MIGRATION,
    {
        MOCK_MIGRATION
    }

    /// The query for the rules in the order they apply: by priority, then
    /// by age, then by id.
    pub fn list_rules(&self) -> (st: SqlStatement)
        ensures
            runs(st, LIST_RULES_SQL, seq![]),
    {
        statement0(LIST_RULES_SQL)
    }

    pub fn set_enabled(&self, id: &str, enabled: bool) -> (st: SqlStatement)
        ensures
            runs(st, SET_RULE_ENABLED_SQL, seq![text_param(id@), flag_param(enabled)]),
    {
        statement2(SET_RULE_ENABLED_SQL, text(id), flag(enabled))
    }

    pub fn set_priority(&self, id: &str, priority: i64) -> (st: SqlStatement)
        ensures
            runs(st, SET_RULE_PRIORITY_SQL, seq![text_param(id@), SqlParam::Integer(priority as int)]),
    {
        statement2(SET_RULE_PRIORITY_SQL, text(id), SqlValue::Integer(priority))
    }

    pub fn delete_rule(&self, id: &str) -> (st: SqlStatement)
        ensures
            runs(st, DELETE_RULE_SQL, seq![text_param(id@)]),
    {
        statement1(DELETE_RULE_SQL, text(id))
    }

    /// The statement that disables every enabled rule; the count of rows it
    /// changed is the count of rules it disabled.
    pub fn disable_all(&self) -> (st: SqlStatement)
        ensures
            runs(st, DISABLE_ALL_RULES_SQL, seq![]),
    {
        statement0(DISABLE_ALL_RULES_SQL)
    }
}

/// The store of response fixtures, kept beside the traffic database.
#[derive(Debug, Clone)]
pub struct MockFixtureDatabase {
    path: String,
}

impl MockFixtureDatabase {
    pub closed spec fn location(&self) -> Seq<char> {
        self.path@
    }

    pub fn new(path: &str) -> (d: Self)
        ensures
            d.location() == path@,
    {
        MockFixtureDatabase { path: owned(path) }
    }

    pub fn path(&self) -> (r: &str)
        ensures
            r@ == self.location(),
    {
        self.path.as_str()
    }

    /// The schema script of the store.
    pub fn initialize(&self) -> (r: &'static str)
        ensures
            r == FIXTURE_MIGRATION,
    {
        FIXTURE_MIGRATION
    }

    /// The query for the fixtures, by name without regard to case.
    pub fn list(&self) -> (st: SqlStatement)
        ensures
            runs(st, LIST_FIXTURES_SQL, seq![]),
    {
        statement0(LIST_FIXTURES_SQL)
    }

    pub fn get(&self, id: &str) -> (st: SqlStatement)
        ensures
            runs(st, GET_FIXTURE_SQL, seq![text_param(id@)]),
    {
        statement1(GET_FIXTURE_SQL, text(id))
    }

    pub fn delete(&self, id: &str) -> (st: SqlStatement)
        ensures
            runs(st, DELETE_FIXTURE_SQL, seq![text_param(id@)]),
    {
        statement1(DELETE_FIXTURE_SQL, text(id))
    }
}

// ---------------------------------------------------------------------------
// The SDK event store
// ---------------------------------------------------------------------------

pub const RECORD_EVENT_SQL: &'static str = "
            INSERT OR IGNORE INTO sdk_events (
                event_id, schema_version, client_id, event_kind, request_id, occurred_at, payload_json
            ) VALUES (?1, ?2, ?3, ?4, ?5, ?6, ?7)
            ";

pub const TOUCH_CLIENT_SQL: &'static str = "UPDATE sdk_clients SET last_seen_at = ?2 WHERE client_id = ?1";

pub const UPSERT_CLIENT_SQL: &'static str = "
            INSERT INTO sdk_clients (
                client_id, app_id, app_name, app_version, app_build, platform,
                device_name, os_version, sdk_version, first_seen_at, last_seen_at
            ) VALUES (?1, ?2, ?3, ?4, ?5, ?6, ?7, ?8, ?9, ?10, ?10)
            ON CONFLICT(client_id) DO UPDATE SET
                app_id = excluded.app_id,
                app_name = excluded.app_name,
                app_version = excluded.app_version,
                app_build = excluded.app_build,
                platform = excluded.platform,
                device_name = excluded.device_name,
                os_version = excluded.os_version,
                sdk_version = excluded.sdk_version,
                last_seen_at = excluded.last_seen_at
            ";

pub const LIST_CLIENTS_SQL: &'static str = "
            SELECT client_id, app_id, app_name, app_version, app_build, platform,
                   device_name, os_version, sdk_version, first_seen_at, last_seen_at
            FROM sdk_clients
            ORDER BY last_seen_at DESC, app_name COLLATE NOCASE ASC, client_id ASC
            ";

pub const GET_CLIENT_SQL: &'static str = "
                SELECT client_id, app_id, app_name, app_version, app_build, platform,
                       device_name, os_version, sdk_version, first_seen_at, last_seen_at
                FROM sdk_clients WHERE client_id = ?1
                ";

pub const EVENTS_FOR_REQUEST_SQL: &'static str = "SELECT payload_json FROM sdk_events WHERE request_id = ?1 ORDER BY occurred_at ASC, event_id ASC";

pub const EVENTS_FOR_CLIENT_SQL: &'static str = "
            SELECT payload_json FROM sdk_events
            WHERE client_id = ?1
            ORDER BY occurred_at DESC, event_id DESC
            LIMIT ?2
            ";

pub const RECENT_CONTEXT_EVENTS_SQL: &'static str = "
            SELECT payload_json FROM sdk_events
            WHERE client_id = ?1
              AND occurred_at >= ?2
              AND occurred_at <= ?3
              AND event_kind IN ('context', 'log', 'network')
            ORDER BY occurred_at ASC, event_id ASC
            LIMIT ?4
            ";

pub const SEARCH_EVENTS_SQL: &'static str = "
            SELECT payload_json FROM sdk_events
            WHERE payload_json LIKE ?1
            ORDER BY occurred_at DESC, event_id DESC
            LIMIT ?2
            ";

/// An app that connected through the SDK, as last seen.
#[derive(Debug, Clone, PartialEq, Eq)]
pub struct SdkClientRecord {
    pub client_id: String,
    pub app_id: String,
    pub app_name: String,
    pub app_version: Option<String>,
    pub app_build: Option<String>,
    pub platform: SdkPlatform,
    pub device_name: Option<String>,
    pub os_version: Option<String>,
    pub sdk_version: String,
    pub first_seen_at: String,
    pub last_seen_at: String,
}

/// A client as the `sdk_clients` table returns it.
pub struct ClientRow {
    pub client_id: String,
    pub app_id: String,
    pub app_name: String,
    pub app_version: Option<String>,
    pub app_build: Option<String>,
    pub platform: String,
    pub device_name: Option<String>,
    pub os_version: Option<String>,
    pub sdk_version: String,
    pub first_seen_at: String,
    pub last_seen_at: String,
}

/// The store of what apps sent through the SDK.
#[derive(Debug, Clone)]
pub struct SdkDatabase {
    path: String,
}

/// How many events one query returns at most: the requested count, up to 2000.
pub open spec fn event_page(limit: usize) -> int {
    if limit < 2000 {
        limit as int
    } else {
        2000
    }
}

pub open spec fn saturating_sub_u128(a: u128, b: u128) -> nat {
    if a >= b {
        (a - b) as nat
    } else {
        0
    }
}

pub open spec fn saturating_add_u128(a: u128, b: u128) -> nat {
    if a + b <= u128::MAX {
        (a + b) as nat
    } else {
        u128::MAX as nat
    }
}

/// The parameters that store an envelope whose JSON text is `json`.
pub open spec fn event_params(envelope: SdkEnvelope, json: Seq<char>) -> Seq<SqlParam> {
    seq![
        text_param(envelope.event_id@),
        SqlParam::Integer(envelope.schema_version as int),
        text_param(event_client_id(envelope.event)),
        text_param(event_kind(envelope.event)),
        match envelope.event {
            SdkEvent::Network(n) => text_param(n.request_id@),
            _ => SqlParam::Null,
        },
        text_param(envelope.occurred_at@),
        text_param(json),
    ]
}

/// The parameters that record what a handshake says of its client.
pub open spec fn client_params(h: SdkHandshake, occurred_at: Seq<char>) -> Seq<SqlParam> {
    seq![
        text_param(h.client_id@),
        text_param(h.app_id@),
        text_param(h.app_name@),
        opt_text_param(opt_view(h.app_version)),
        opt_text_param(opt_view(h.app_build)),
        text_param(platform_name_of(h.platform)),
        opt_text_param(opt_view(h.device_name)),
        opt_text_param(opt_view(h.os_version)),
        text_param(h.sdk_version@),
        text_param(occurred_at),
    ]
}

impl SdkDatabase {
    pub closed spec fn location(&self) -> Seq<char> {
        self.path@
    }

    pub fn new(path: &str) -> (d: Self)
        ensures
            d.location() == path@,
    {
        SdkDatabase { path: owned(path) }
    }

    pub fn path(&self) -> (r: &str)
        ensures
            r@ == self.location(),
    {
        self.path.as_str()
    }

    /// The schema script of the store.
    pub fn initialize(&self) -> (r: &'static str)
        ensures
            r == SDK_MIGRATION,
    {
        SDK_MIGRATION
    }

    /// The statements that store an envelope, run in order, or the reason it
    /// is refused; `json` is the envelope's JSON text. An event is stored
    /// once, under its id; a handshake records (or updates) its client, and
    /// any other event marks its client as seen at the event's time.
    pub fn record(&self, envelope: &SdkEnvelope, json: &str) -> (r: Result<Vec<SqlStatement>, SdkProtocolError>)
        ensures
            r is Ok <==> envelope_problem(*envelope) is None,
            r matches Err(e) ==> envelope_problem(*envelope) == Some(e.code@),
            r matches Ok(sts) ==> sts@.len() == 2 && runs(sts@[0], RECORD_EVENT_SQL, event_params(*envelope, json@))
                && match envelope.event {
                SdkEvent::Handshake(h) => runs(sts@[1], UPSERT_CLIENT_SQL, client_params(h, envelope.occurred_at@)),
                _ => runs(
                    sts@[1],
                    TOUCH_CLIENT_SQL,
                    seq![text_param(event_client_id(envelope.event)), text_param(envelope.occurred_at@)],
                ),
            },
    {
        match envelope.validate() {
            Err(e) => {
                return Err(e);
            },
            Ok(()) => {},
        }
        let mut params: Vec<SqlValue> = Vec::new();
        push_param(&mut params, text(envelope.event_id.as_str()));
        push_param(&mut params, SqlValue::Integer(envelope.schema_version as i64));
        push_param(&mut params, text(envelope.event.client_id()));
        push_param(&mut params, text(envelope.event.kind()));
        let request = match envelope.event.request_id() {
            Some(id) => text(id),
            None => SqlValue::Null,
        };
        push_param(&mut params, request);
        push_param(&mut params, text(envelope.occurred_at.as_str()));
        push_param(&mut params, text(json));
        let event = SqlStatement { sql: RECORD_EVENT_SQL, params };
        assert(params_of(event) =~= event_params(*envelope, json@));
        let client = match &envelope.event {
            SdkEvent::Handshake(h) => {
                let mut ps: Vec<SqlValue> = Vec::new();
                push_param(&mut ps, text(h.client_id.as_str()));
                push_param(&mut ps, text(h.app_id.as_str()));
                push_param(&mut ps, text(h.app_name.as_str()));
                push_param(&mut ps, opt_text(&h.app_version));
                push_param(&mut ps, opt_text(&h.app_build));
                push_param(&mut ps, text(platform_string(&h.platform)));
                push_param(&mut ps, opt_text(&h.device_name));
                push_param(&mut ps, opt_text(&h.os_version));
                push_param(&mut ps, text(h.sdk_version.as_str()));
                push_param(&mut ps, text(envelope.occurred_at.as_str()));
                let st = SqlStatement { sql: UPSERT_CLIENT_SQL, params: ps };
                assert(params_of(st) =~= client_params(*h, envelope.occurred_at@));
                st
            },
            _ => statement2(TOUCH_CLIENT_SQL, text(envelope.event.client_id()), text(envelope.occurred_at.as_str())),
        };
        let mut sts: Vec<SqlStatement> = Vec::new();
        sts.push(event);
        sts.push(client);
        Ok(sts)
    }

    /// The query for the clients, the most recently seen first.
    pub fn list_clients(&self) -> (st: SqlStatement)
        ensures
            runs(st, LIST_CLIENTS_SQL, seq![]),
    {
        statement0(LIST_CLIENTS_SQL)
    }

    /// The client a row of `list_clients` or `get_client` describes; an
    /// unknown platform reads as `Other`.
    pub fn client_from_row(row: ClientRow) -> (c: SdkClientRecord)
        ensures
            c.client_id == row.client_id,
            c.app_id == row.app_id,
            c.app_name == row.app_name,
            c.app_version == row.app_version,
            c.app_build == row.app_build,
            c.platform == platform_of_name(row.platform@),
            c.device_name == row.device_name,
            c.os_version == row.os_version,
            c.sdk_version == row.sdk_version,
            c.first_seen_at == row.first_seen_at,
            c.last_seen_at == row.last_seen_at,
    {
        let platform = parse_platform(row.platform.as_str());
        SdkClientRecord {
            client_id: row.client_id,
            app_id: row.app_id,
            app_name: row.app_name,
            app_version: row.app_version,
            app_build: row.app_build,
            platform,
            device_name: row.device_name,
            os_version: row.os_version,
            sdk_version: row.sdk_version,
            first_seen_at: row.first_seen_at,
            last_seen_at: row.last_seen_at,
        }
    }

    pub fn get_client(&self, client_id: &str) -> (st: SqlStatement)
        ensures
            runs(st, GET_CLIENT_SQL, seq![text_param(client_id@)]),
    {
        statement1(GET_CLIENT_SQL, text(client_id))
    }

    /// The query for the events correlated with a request, oldest first.
    pub fn events_for_request(&self, request_id: &str) -> (st: SqlStatement)
        ensures
            runs(st, EVENTS_FOR_REQUEST_SQL, seq![text_param(request_id@)]),
    {
        statement1(EVENTS_FOR_REQUEST_SQL, text(request_id))
    }

    /// The query for a client's newest events.
    pub fn events_for_client(&self, client_id: &str, limit: usize) -> (st: SqlStatement)
        ensures
            runs(st, EVENTS_FOR_CLIENT_SQL, seq![text_param(client_id@), SqlParam::Integer(event_page(limit))]),
    {
        let page: usize = if limit < 2000 { limit } else { 2000 };
        statement2(EVENTS_FOR_CLIENT_SQL, text(client_id), SqlValue::Integer(page as i64))
    }

    /// The query for the context, log and network events a client sent
    /// within `window_ms` of `around_ms`, oldest first.
    pub fn recent_context_events(&self, client_id: &str, around_ms: u128, window_ms: u128, limit: usize) -> (st: SqlStatement)
        ensures
            runs(
                st,
                RECENT_CONTEXT_EVENTS_SQL,
                seq![
                    text_param(client_id@),
                    text_param(decimal(saturating_sub_u128(around_ms, window_ms))),
                    text_param(decimal(saturating_add_u128(around_ms, window_ms))),
                    SqlParam::Integer(event_page(limit)),
                ],
            ),
    {
        let lower: u128 = if around_ms >= window_ms { around_ms - window_ms } else { 0 };
        let upper: u128 = if around_ms <= u128::MAX - window_ms { around_ms + window_ms } else { u128::MAX };
        let page: usize = if limit < 2000 { limit } else { 2000 };
        let mut params: Vec<SqlValue> = Vec::new();
        push_param(&mut params, text(client_id));
        push_param(&mut params, SqlValue::Text(string_of(&decimal_chars_wide(lower))));
        push_param(&mut params, SqlValue::Text(string_of(&decimal_chars_wide(upper))));
        push_param(&mut params, SqlValue::Integer(page as i64));
        let st = SqlStatement { sql: RECENT_CONTEXT_EVENTS_SQL, params };
        assert(params_of(st) =~= seq![
            text_param(client_id@),
            text_param(decimal(saturating_sub_u128(around_ms, window_ms))),
            text_param(decimal(saturating_add_u128(around_ms, window_ms))),
            SqlParam::Integer(event_page(limit)),
        ]);
        st
    }

    /// The query for the newest events whose JSON text contains `text`,
    /// trimmed.
    pub fn search_events(&self, text: &str, limit: usize) -> (st: SqlStatement)
        ensures
            runs(
                st,
                SEARCH_EVENTS_SQL,
                seq![text_param("%"@ + trim(text@) + "%"@), SqlParam::Integer(event_page(limit))],
            ),
    {
        let mut needle = crate::text::chars_of("%");
        crate::text::extend_str(&mut needle, trimmed(text).as_str());
        crate::text::extend_str(&mut needle, "%");
        let page: usize = if limit < 2000 { limit } else { 2000 };
        statement2(SEARCH_EVENTS_SQL, SqlValue::Text(string_of(&needle)), SqlValue::Integer(page as i64))
    }
}

} // verus!
