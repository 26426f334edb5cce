//! Replacing the whole workspace with an imported one, in one transaction:
//! what is cleared, what is written, and in which order.
use vstd::prelude::*;

use crate::devices::opt_view;
use crate::model::{CaptureSession, FlowDetail, FlowSummary};
use crate::records::{
    UPSERT_ENDPOINT_INDEX_SQL, collection_params, collection_values, endpoint_params, environment_params,
    environment_values, flow_params, flow_values, saved_request_params, saved_request_values, session_params,
    session_values, variable_params, variable_values,
};
use crate::storage::{Database, SqlParam, SqlStatement, params_of, statement0, statement2, text, text_param};
use crate::workspace::{Environment, EnvironmentVariable, SavedCollection, SavedRequest};

verus! {

pub const SELECT_SECRET_REFS_SQL: &'static str = "SELECT secret_ref FROM environment_variables WHERE secret_ref IS NOT NULL";

pub const CLEAR_ENVIRONMENTS_SQL: &'static str = "DELETE FROM environments";

pub const CLEAR_COLLECTIONS_SQL: &'static str = "DELETE FROM saved_collections";

pub const CLEAR_SESSIONS_SQL: &'static str = "DELETE FROM sessions";

pub const INSERT_SESSION_SQL: &'static str = "INSERT INTO sessions (id, schema_version, name, status, started_at, ended_at, device_id, app_id, connection_strategy, capture_engine, notes) VALUES (?1, ?2, ?3, ?4, ?5, ?6, ?7, ?8, ?9, ?10, ?11)";

pub const INSERT_FLOW_SQL: &'static str = "INSERT INTO flows (id, schema_version, session_id, source, method, host, path, status_code, duration_ms, response_size_bytes, started_at) VALUES (?1, ?2, ?3, ?4, ?5, ?6, ?7, ?8, ?9, ?10, ?11)";

pub const INSERT_DETAIL_SQL: &'static str = "INSERT INTO flow_details (flow_id, detail_json) VALUES (?1, ?2)";

pub const INSERT_COLLECTION_SQL: &'static str = "INSERT INTO saved_collections (id, schema_version, name, description, sort_order, created_at, updated_at) VALUES (?1, ?2, ?3, ?4, ?5, ?6, ?7)";

pub const INSERT_SAVED_REQUEST_SQL: &'static str = "INSERT INTO saved_requests (id, schema_version, collection_id, name, method, url, headers_json, body_json, source_flow_id, sort_order, created_at, updated_at) VALUES (?1, ?2, ?3, ?4, ?5, ?6, ?7, ?8, ?9, ?10, ?11, ?12)";

pub const INSERT_ENVIRONMENT_SQL: &'static str = "INSERT INTO environments (id, schema_version, name, is_active, created_at, updated_at) VALUES (?1, ?2, ?3, ?4, ?5, ?6)";

pub const INSERT_VARIABLE_SQL: &'static str = "INSERT INTO environment_variables (id, schema_version, environment_id, key, value, is_secret, secret_ref, enabled, sort_order) VALUES (?1, ?2, ?3, ?4, ?5, ?6, ?7, ?8, ?9)";

/// A flow to import, with its full detail where the bundle has it.
pub struct ImportedFlow {
    pub summary: FlowSummary,
    pub detail: Option<FlowDetail>,
}

/// A session to import with its flows.
pub struct ImportedSession {
    pub session: CaptureSession,
    pub flows: Vec<ImportedFlow>,
}

/// Everything a replacing import writes.
pub struct WorkspaceReplacement {
    pub sessions: Vec<ImportedSession>,
    pub collections: Vec<SavedCollection>,
    pub saved_requests: Vec<SavedRequest>,
    pub environments: Vec<Environment>,
    pub environment_variables: Vec<EnvironmentVariable>,
}

/// The values of a replacement that are stored as JSON, encoded: each
/// flow's detail (by session, then by flow) and each saved request's
/// headers and body.
pub struct ReplacementJson {
    pub flow_details: Vec<Vec<Option<String>>>,
    pub request_headers: Vec<String>,
    pub request_bodies: Vec<Option<String>>,
}

/// What a replacement runs, in one transaction: first the query for the
/// secret references stored so far (whose secrets the caller removes once
/// the transaction commits), then the writes, in order.
pub struct ReplacementPlan {
    pub old_secret_refs: SqlStatement,
    pub writes: Vec<SqlStatement>,
}

/// A statement as its SQL and its parameters.
pub open spec fn write_of(st: SqlStatement) -> (Seq<char>, Seq<SqlParam>) {
    (st.sql@, params_of(st))
}

pub open spec fn writes_of(sts: Seq<SqlStatement>) -> Seq<(Seq<char>, Seq<SqlParam>)> {
    sts.map_values(|st: SqlStatement| write_of(st))
}

/// The encoding fits the replacement: one entry per session, flow and
/// saved request, and an encoding for every detail and body there is.
pub open spec fn json_fits(r: WorkspaceReplacement, j: ReplacementJson) -> bool {
    &&& j.flow_details@.len() == r.sessions@.len()
    &&& forall|i: int| 0 <= i < r.sessions@.len() ==> #[trigger] j.flow_details@[i]@.len() == r.sessions@[i].flows@.len()
    &&& forall|i: int, k: int| 0 <= i < r.sessions@.len() && 0 <= k < r.sessions@[i].flows@.len()
            && (#[trigger] r.sessions@[i].flows@[k]).detail is Some ==> j.flow_details@[i]@[k] is Some
    &&& j.request_headers@.len() == r.saved_requests@.len()
    &&& j.request_bodies@.len() == r.saved_requests@.len()
    &&& forall|i: int| 0 <= i < r.saved_requests@.len() && (#[trigger] r.saved_requests@[i]).body is Some
            ==> j.request_bodies@[i] is Some
}

/// What is written for a flow: the flow, its endpoint, and its detail
/// where it has one.
pub open spec fn flow_writes(f: ImportedFlow, json: Option<String>) -> Seq<(Seq<char>, Seq<SqlParam>)> {
    let base = seq![
        (INSERT_FLOW_SQL@, flow_params(f.summary)),
        (UPSERT_ENDPOINT_INDEX_SQL@, endpoint_params(f.summary)),
    ];
    if f.detail is Some {
        base.push((INSERT_DETAIL_SQL@, seq![text_param(f.summary.id@), text_param(json->0@)]))
    } else {
        base
    }
}

/// What is written for the first `n` flows of a session.
pub open spec fn flows_writes(flows: Seq<ImportedFlow>, json: Seq<Option<String>>, n: nat) -> Seq<(Seq<char>, Seq<SqlParam>)>
    decreases n,
{
    if n == 0 {
        seq![]
    } else {
        flows_writes(flows, json, (n - 1) as nat) + flow_writes(flows[n - 1], json[n - 1])
    }
}

/// What is written for a session: the session, then its flows.
pub open spec fn session_writes(s: ImportedSession, json: Seq<Option<String>>) -> Seq<(Seq<char>, Seq<SqlParam>)> {
    seq![(INSERT_SESSION_SQL@, session_params(s.session))] + flows_writes(s.flows@, json, s.flows@.len())
}

/// What is written for the first `n` sessions.
pub open spec fn sessions_writes(sessions: Seq<ImportedSession>, json: Seq<Vec<Option<String>>>, n: nat) -> Seq<(Seq<char>, Seq<SqlParam>)>
    decreases n,
{
    if n == 0 {
        seq![]
    } else {
        sessions_writes(sessions, json, (n - 1) as nat) + session_writes(sessions[n - 1], json[n - 1]@)
    }
}

pub open spec fn collections_writes(cs: Seq<SavedCollection>, n: nat) -> Seq<(Seq<char>, Seq<SqlParam>)>
    decreases n,
{
    if n == 0 {
        seq![]
    } else {
        collections_writes(cs, (n - 1) as nat).push((INSERT_COLLECTION_SQL@, collection_params(cs[n - 1])))
    }
}

/// The encoded body of a saved request: none where it has no body.
pub open spec fn body_json(r: SavedRequest, json: Option<String>) -> Option<Seq<char>> {
    if r.body is Some {
        opt_view(json)
    } else {
        None
    }
}

pub open spec fn requests_writes(rs: Seq<SavedRequest>, headers: Seq<String>, bodies: Seq<Option<String>>, n: nat) -> Seq<(Seq<char>, Seq<SqlParam>)>
    decreases n,
{
    if n == 0 {
        seq![]
    } else {
        requests_writes(rs, headers, bodies, (n - 1) as nat).push(
            (INSERT_SAVED_REQUEST_SQL@, saved_request_params(rs[n - 1], headers[n - 1]@, body_json(rs[n - 1], bodies[n - 1]))),
        )
    }
}

pub open spec fn environments_writes(es: Seq<Environment>, n: nat) -> Seq<(Seq<char>, Seq<SqlParam>)>
    decreases n,
{
    if n == 0 {
        seq![]
    } else {
        environments_writes(es, (n - 1) as nat).push((INSERT_ENVIRONMENT_SQL@, environment_params(es[n - 1])))
    }
}

pub open spec fn variables_writes(vs: Seq<EnvironmentVariable>, n: nat) -> Seq<(Seq<char>, Seq<SqlParam>)>
    decreases n,
{
    if n == 0 {
        seq![]
    } else {
        variables_writes(vs, (n - 1) as nat).push((INSERT_VARIABLE_SQL@, variable_params(vs[n - 1])))
    }
}

/// The writes of a replacement: the sessions (with their flows), the
/// collections and the environments stored so far are deleted, the
/// database's cascades taking what hangs off them; then the imported
/// sessions with their flows, the collections, the saved requests, the
/// environments and the variables are inserted, in the order given.
pub open spec fn replacement_writes(r: WorkspaceReplacement, j: ReplacementJson) -> Seq<(Seq<char>, Seq<SqlParam>)> {
    seq![
        (CLEAR_ENVIRONMENTS_SQL@, seq![]),
        (CLEAR_COLLECTIONS_SQL@, seq![]),
        (CLEAR_SESSIONS_SQL@, seq![]),
    ]
        + sessions_writes(r.sessions@, j.flow_details@, r.sessions@.len())
        + collections_writes(r.collections@, r.collections@.len())
        + requests_writes(r.saved_requests@, j.request_headers@, j.request_bodies@, r.saved_requests@.len())
        + environments_writes(r.environments@, r.environments@.len())
        + variables_writes(r.environment_variables@, r.environment_variables@.len())
}

fn push_write(writes: &mut Vec<SqlStatement>, st: SqlStatement)
    ensures
        writes_of(final(writes)@) == writes_of(old(writes)@).push(write_of(st)),
{
    writes.push(st);
    assert(writes_of(writes@) =~= writes_of(old(writes)@).push(write_of(st)));
}

fn write_flow(writes: &mut Vec<SqlStatement>, database: &Database, f: &ImportedFlow, json: &Option<String>)
    requires
        f.detail is Some ==> *json is Some,
    ensures
        writes_of(final(writes)@) == writes_of(old(writes)@) + flow_writes(*f, *json),
{
    let ghost before = writes_of(writes@);
    push_write(writes, flow_values(&f.summary, INSERT_FLOW_SQL));
    push_write(writes, database.upsert_endpoint_index(&f.summary));
    if f.detail.is_some() {
        match json {
            Some(d) => {
                push_write(writes, statement2(INSERT_DETAIL_SQL, text(f.summary.id.as_str()), text(d.as_str())));
            },
            None => {},
        }
    }
    assert(writes_of(writes@) =~= before + flow_writes(*f, *json));
}

fn write_session(writes: &mut Vec<SqlStatement>, database: &Database, s: &ImportedSession, json: &Vec<Option<String>>)
    requires
        json@.len() == s.flows@.len(),
        forall|k: int| 0 <= k < s.flows@.len() && (#[trigger] s.flows@[k]).detail is Some ==> json@[k] is Some,
    ensures
        writes_of(final(writes)@) == writes_of(old(writes)@) + session_writes(*s, json@),
{
    let ghost before = writes_of(writes@);
    push_write(writes, session_values(&s.session, INSERT_SESSION_SQL));
    let ghost after_session = writes_of(writes@);
    let mut k: usize = 0;
    while k < s.flows.len()
        invariant
            k <= s.flows@.len(),
            json@.len() == s.flows@.len(),
            forall|m: int| 0 <= m < s.flows@.len() && (#[trigger] s.flows@[m]).detail is Some ==> json@[m] is Some,
            writes_of(writes@) == after_session + flows_writes(s.flows@, json@, k as nat),
        decreases s.flows@.len() - k,
    {
        let ghost mid = writes_of(writes@);
        write_flow(writes, database, &s.flows[k], &json[k]);
        assert(flows_writes(s.flows@, json@, (k + 1) as nat)
            == flows_writes(s.flows@, json@, k as nat) + flow_writes(s.flows@[k as int], json@[k as int]));
        assert(writes_of(writes@) =~= after_session + flows_writes(s.flows@, json@, (k + 1) as nat));
        k = k + 1;
    }
    assert(writes_of(writes@) =~= before + session_writes(*s, json@));
}

impl Database {
    /// The statements that replace the whole workspace with `replacement`,
    /// given the values that are stored as JSON encoded in `json`. The
    /// caller runs them in one transaction, so that nothing changes unless
    /// every row is written, and writes the bodies the flows refer to
    /// before it.
    pub fn replace_workspace(&self, replacement: &WorkspaceReplacement, json: &ReplacementJson) -> (plan: ReplacementPlan)
        requires
            json_fits(*replacement, *json),
        ensures
            write_of(plan.old_secret_refs) == (SELECT_SECRET_REFS_SQL@, Seq::<SqlParam>::empty()),
            writes_of(plan.writes@) == replacement_writes(*replacement, *json),
    {
        let old_secret_refs = statement0(SELECT_SECRET_REFS_SQL);
        let mut writes: Vec<SqlStatement> = Vec::new();
        push_write(&mut writes, statement0(CLEAR_ENVIRONMENTS_SQL));
        push_write(&mut writes, statement0(CLEAR_COLLECTIONS_SQL));
        push_write(&mut writes, statement0(CLEAR_SESSIONS_SQL));
        let ghost cleared = writes_of(writes@);
        assert(cleared =~= seq![
            (CLEAR_ENVIRONMENTS_SQL@, Seq::<SqlParam>::empty()),
            (CLEAR_COLLECTIONS_SQL@, Seq::<SqlParam>::empty()),
            (CLEAR_SESSIONS_SQL@, Seq::<SqlParam>::empty()),
        ]);

        let sessions = &replacement.sessions;
        let mut i: usize = 0;
        while i < sessions.len()
            invariant
                i <= sessions@.len(),
                *sessions == replacement.sessions,
                json_fits(*replacement, *json),
                writes_of(writes@) == cleared + sessions_writes(sessions@, json.flow_details@, i as nat),
            decreases sessions@.len() - i,
        {
            assert(json.flow_details@[i as int]@.len() == sessions@[i as int].flows@.len());
            assert forall|k: int| 0 <= k < sessions@[i as int].flows@.len()
                && (#[trigger] sessions@[i as int].flows@[k]).detail is Some implies json.flow_details@[i as int]@[k] is Some by {
            }
            write_session(&mut writes, self, &sessions[i], &json.flow_details[i]);
            assert(writes_of(writes@) =~= cleared + sessions_writes(sessions@, json.flow_details@, (i + 1) as nat));
            i = i + 1;
        }
        let ghost after_sessions = writes_of(writes@);

        let collections = &replacement.collections;
        let mut c: usize = 0;
        while c < collections.len()
            invariant
                c <= collections@.len(),
                writes_of(writes@) == after_sessions + collections_writes(collections@, c as nat),
            decreases collections@.len() - c,
        {
            push_write(&mut writes, collection_values(&collections[c], INSERT_COLLECTION_SQL));
            assert(writes_of(writes@) =~= after_sessions + collections_writes(collections@, (c + 1) as nat));
            c = c + 1;
        }
        let ghost after_collections = writes_of(writes@);

        let requests = &replacement.saved_requests;
        let mut q: usize = 0;
        while q < requests.len()
            invariant
                q <= requests@.len(),
                *requests == replacement.saved_requests,
                json_fits(*replacement, *json),
                writes_of(writes@) == after_collections
                    + requests_writes(requests@, json.request_headers@, json.request_bodies@, q as nat),
            decreases requests@.len() - q,
        {
            let request = &requests[q];
            let body: Option<&str> = if request.body.is_some() {
                match &json.request_bodies[q] {
                    Some(b) => Some(b.as_str()),
                    None => None,
                }
            } else {
                None
            };
            assert((match body {
                Some(b) => Some(b@),
                None => None,
            }) == body_json(*request, json.request_bodies@[q as int]));
            push_write(&mut writes, saved_request_values(request, json.request_headers[q].as_str(), body, INSERT_SAVED_REQUEST_SQL));
            assert(writes_of(writes@) =~= after_collections
                + requests_writes(requests@, json.request_headers@, json.request_bodies@, (q + 1) as nat));
            q = q + 1;
        }
        let ghost after_requests = writes_of(writes@);

        let environments = &replacement.environments;
        let mut e: usize = 0;
        while e < environments.len()
            invariant
                e <= environments@.len(),
                writes_of(writes@) == after_requests + environments_writes(environments@, e as nat),
            decreases environments@.len() - e,
        {
            push_write(&mut writes, environment_values(&environments[e], INSERT_ENVIRONMENT_SQL));
            assert(writes_of(writes@) =~= after_requests + environments_writes(environments@, (e + 1) as nat));
            e = e + 1;
        }
        let ghost after_environments = writes_of(writes@);

        let variables = &replacement.environment_variables;
        let mut v: usize = 0;
        while v < variables.len()
            invariant
                v <= variables@.len(),
                writes_of(writes@) == after_environments + variables_writes(variables@, v as nat),
            decreases variables@.len() - v,
        {
            push_write(&mut writes, variable_values(&variables[v], INSERT_VARIABLE_SQL));
            assert(writes_of(writes@) =~= after_environments + variables_writes(variables@, (v + 1) as nat));
            v = v + 1;
        }
        assert(write_of(old_secret_refs) =~= (SELECT_SECRET_REFS_SQL@, Seq::<SqlParam>::empty()));
        ReplacementPlan { old_secret_refs, writes }
    }
}

proof fn lemma_variables_writes(vs: Seq<EnvironmentVariable>, n: nat)
    requires
        n <= vs.len(),
    ensures
        variables_writes(vs, n).len() == n,
        forall|k: int| 0 <= k < n ==> #[trigger] variables_writes(vs, n)[k] == (INSERT_VARIABLE_SQL@, variable_params(vs[k])),
    decreases n,
{
    if n > 0 {
        lemma_variables_writes(vs, (n - 1) as nat);
    }
}

/// A replacement's last writes are the imported variables, one each and in
/// order, and none of them stores the value of a secret variable.
pub proof fn replacement_keeps_secret_values_out(r: WorkspaceReplacement, j: ReplacementJson, k: int)
    requires
        0 <= k < r.environment_variables@.len(),
    ensures
        ({
            let w = replacement_writes(r, j);
            let at = w.len() - r.environment_variables@.len() + k;
            &&& w[at] == (INSERT_VARIABLE_SQL@, variable_params(r.environment_variables@[k]))
            &&& r.environment_variables@[k].is_secret ==> w[at].1[4] == SqlParam::Null
        }),
{
    let vs = r.environment_variables@;
    lemma_variables_writes(vs, vs.len());
    let w = replacement_writes(r, j);
    let front = seq![
        (CLEAR_ENVIRONMENTS_SQL@, Seq::<SqlParam>::empty()),
        (CLEAR_COLLECTIONS_SQL@, Seq::<SqlParam>::empty()),
        (CLEAR_SESSIONS_SQL@, Seq::<SqlParam>::empty()),
    ]
        + sessions_writes(r.sessions@, j.flow_details@, r.sessions@.len())
        + collections_writes(r.collections@, r.collections@.len())
        + requests_writes(r.saved_requests@, j.request_headers@, j.request_bodies@, r.saved_requests@.len())
        + environments_writes(r.environments@, r.environments@.len());
    assert(w == front + variables_writes(vs, vs.len()));
    assert(w[front.len() + k] == variables_writes(vs, vs.len())[k]);
}

} // verus!
