//! The rules of the workspace screens: naming, saving captured requests,
//! environments and their variables.
use vstd::prelude::*;

use crate::devices::opt_view;
use crate::interpolation::{InterpolationResult, VariableMap, interp, lookup};
use crate::model::{AppError, BodyRef, FlowDetail, SCHEMA_VERSION};
use crate::portable::{base64_encoded, encode_base64};
use crate::secret::SecretStore;
use crate::storage::{SqlStatement, SqlValue, runs, text_param, opt_text_param};
use crate::text::{
    chars_of, copy_opt_string, copy_string, extend_str, lowercase, owned, string_of, trim, trimmed, unicode_lowercase,
};
use crate::workspace::{Environment, EnvironmentVariable, EnvironmentVariableInput, SavedCollection, SavedRequest, SavedRequestBody};

verus! {

#[derive(Debug, Clone)]
pub struct SessionMetadataInput {
    pub id: String,
    pub name: String,
    pub notes: Option<String>,
}

#[derive(Debug, Clone)]
pub struct CollectionInput {
    pub id: Option<String>,
    pub name: String,
    pub description: Option<String>,
    pub sort_order: Option<i64>,
}

#[derive(Debug, Clone)]
pub struct SaveFlowInput {
    pub collection_id: String,
    pub flow_id: String,
    pub name: Option<String>,
}

#[derive(Debug, Clone)]
pub struct EnvironmentInput {
    pub id: Option<String>,
    pub name: String,
    pub is_active: Option<bool>,
}

/// An environment with its variables.
#[derive(Debug, Clone)]
pub struct EnvironmentSnapshot {
    pub environment: Environment,
    pub variables: Vec<EnvironmentVariable>,
}

pub open spec fn first_chars(s: Seq<char>, n: nat) -> Seq<char> {
    if s.len() <= n {
        s
    } else {
        s.take(n as int)
    }
}

/// A name as entered: trimmed and cut to `limit` characters, or the
/// fallback where nothing is left.
pub open spec fn entered_name(value: Seq<char>, fallback: Seq<char>, limit: nat) -> Seq<char> {
    if trim(value).len() == 0 {
        fallback
    } else {
        first_chars(trim(value), limit)
    }
}

pub fn sanitize_name(value: &str, fallback: &str, limit: usize) -> (r: String)
    ensures
        r@ == entered_name(value@, fallback@, limit as nat),
{
    let t = chars_of(trimmed(value).as_str());
    if t.len() == 0 {
        owned(fallback)
    } else if t.len() <= limit {
        string_of(&t)
    } else {
        string_of(&crate::text::slice_chars(&t, 0, limit))
    }
}

/// An optional text as entered: trimmed, absent where nothing is left.
pub open spec fn entered_text(value: Option<Seq<char>>) -> Option<Seq<char>> {
    match value {
        Some(v) => if trim(v).len() > 0 { Some(trim(v)) } else { None },
        None => None,
    }
}

pub fn trim_optional(value: Option<String>) -> (r: Option<String>)
    ensures
        opt_view(r) == entered_text(opt_view(value)),
{
    match value {
        Some(v) => {
            let t = trimmed(v.as_str());
            if t.as_str().unicode_len() > 0 {
                Some(t)
            } else {
                None
            }
        },
        None => None,
    }
}

pub const UPDATE_SESSION_METADATA_SQL: &'static str = "UPDATE sessions SET name = ?2, notes = ?3 WHERE id = ?1";

/// The statement that renames a session and sets its notes; a blank name
/// becomes `Untitled Session`.
pub fn update_session_metadata(input: &SessionMetadataInput) -> (st: SqlStatement)
    ensures
        runs(
            st,
            UPDATE_SESSION_METADATA_SQL,
            seq![
                text_param(input.id@),
                text_param(entered_name(input.name@, "Untitled Session"@, 120)),
                opt_text_param(opt_view(input.notes)),
            ],
        ),
{
    let name = sanitize_name(input.name.as_str(), "Untitled Session", 120);
    let mut params: Vec<SqlValue> = Vec::new();
    params.push(SqlValue::Text(copy_string(&input.id)));
    params.push(SqlValue::Text(name));
    params.push(crate::storage::opt_text(&input.notes));
    let st = SqlStatement { sql: UPDATE_SESSION_METADATA_SQL, params };
    assert(crate::storage::params_of(st) =~= seq![
        text_param(input.id@),
        text_param(entered_name(input.name@, "Untitled Session"@, 120)),
        opt_text_param(opt_view(input.notes)),
    ]);
    st
}

/// The first item whose id is `id`.
pub open spec fn find_collection(items: Seq<SavedCollection>, id: Seq<char>) -> Option<SavedCollection>
    decreases items.len(),
{
    if items.len() == 0 {
        None
    } else if items[0].id@ == id {
        Some(items[0])
    } else {
        find_collection(items.drop_first(), id)
    }
}

pub open spec fn find_environment(items: Seq<Environment>, id: Seq<char>) -> Option<Environment>
    decreases items.len(),
{
    if items.len() == 0 {
        None
    } else if items[0].id@ == id {
        Some(items[0])
    } else {
        find_environment(items.drop_first(), id)
    }
}

fn collection_at(items: &Vec<SavedCollection>, id: &str) -> (r: Option<usize>)
    ensures
        match r {
            Some(i) => i < items@.len() && find_collection(items@, id@) == Some(items@[i as int]),
            None => find_collection(items@, id@) is None,
        },
{
    let mut i: usize = 0;
    assert(items@.skip(0) == items@);
    while i < items.len()
        invariant
            i <= items@.len(),
            find_collection(items@, id@) == find_collection(items@.skip(i as int), id@),
        decreases items@.len() - i,
    {
        assert(items@.skip(i as int)[0] == items@[i as int]);
        assert(items@.skip(i as int).drop_first() == items@.skip(i + 1));
        if crate::text::str_eq(items[i].id.as_str(), id) {
            return Some(i);
        }
        i = i + 1;
    }
    None
}

fn environment_at(items: &Vec<Environment>, id: &str) -> (r: Option<usize>)
    ensures
        match r {
            Some(i) => i < items@.len() && find_environment(items@, id@) == Some(items@[i as int]),
            None => find_environment(items@, id@) is None,
        },
{
    let mut i: usize = 0;
    assert(items@.skip(0) == items@);
    while i < items.len()
        invariant
            i <= items@.len(),
            find_environment(items@, id@) == find_environment(items@.skip(i as int), id@),
        decreases items@.len() - i,
    {
        assert(items@.skip(i as int)[0] == items@[i as int]);
        assert(items@.skip(i as int).drop_first() == items@.skip(i + 1));
        if crate::text::str_eq(items[i].id.as_str(), id) {
            return Some(i);
        }
        i = i + 1;
    }
    None
}

/// The id of a new item: the given one, or `prefix-timestamp`.
pub open spec fn chosen_id(given: Option<Seq<char>>, prefix: Seq<char>, timestamp: Seq<char>) -> Seq<char> {
    match given {
        Some(id) => id,
        None => prefix + "-"@ + timestamp,
    }
}

fn choose_id(given: &Option<String>, prefix: &str, timestamp: &str) -> (r: String)
    ensures
        r@ == chosen_id(opt_view(*given), prefix@, timestamp@),
{
    match given {
        Some(id) => copy_string(id),
        None => {
            let mut v = chars_of(prefix);
            extend_str(&mut v, "-");
            extend_str(&mut v, timestamp);
            string_of(&v)
        },
    }
}

/// A collection as saved from the form: a new one gets an id from the
/// timestamp; an existing one (by id) keeps its creation time and, unless
/// the form sets one, its place in the order.
pub fn upsert_collection(input: &CollectionInput, collections: &Vec<SavedCollection>, timestamp: &str) -> (c: SavedCollection)
    ensures
        c.schema_version == SCHEMA_VERSION,
        c.id@ == chosen_id(opt_view(input.id), "collection"@, timestamp@),
        c.name@ == entered_name(input.name@, "Untitled Collection"@, 120),
        opt_view(c.description) == entered_text(opt_view(input.description)),
        c.sort_order == match input.sort_order {
            Some(o) => o,
            None => match find_collection(collections@, c.id@) {
                Some(e) => e.sort_order,
                None => 0,
            },
        },
        c.created_at@ == match find_collection(collections@, c.id@) {
            Some(e) => e.created_at@,
            None => timestamp@,
        },
        c.updated_at@ == timestamp@,
{
    let id = choose_id(&input.id, "collection", timestamp);
    let existing = collection_at(collections, id.as_str());
    let sort_order = match input.sort_order {
        Some(o) => o,
        None => match existing {
            Some(i) => collections[i].sort_order,
            None => 0,
        },
    };
    let created_at = match existing {
        Some(i) => copy_string(&collections[i].created_at),
        None => owned(timestamp),
    };
    SavedCollection {
        schema_version: SCHEMA_VERSION,
        id,
        name: sanitize_name(input.name.as_str(), "Untitled Collection", 120),
        description: trim_optional(copy_opt_string(&input.description)),
        sort_order,
        created_at,
        updated_at: owned(timestamp),
    }
}

/// An environment as saved from the form: a new one gets an id from the
/// timestamp; an existing one keeps its creation time and, unless the form
/// says otherwise, whether it is active.
pub fn upsert_environment(input: &EnvironmentInput, environments: &Vec<Environment>, timestamp: &str) -> (e: Environment)
    ensures
        e.schema_version == SCHEMA_VERSION,
        e.id@ == chosen_id(opt_view(input.id), "environment"@, timestamp@),
        e.name@ == entered_name(input.name@, "Environment"@, 120),
        e.is_active == match input.is_active {
            Some(a) => a,
            None => match find_environment(environments@, e.id@) {
                Some(x) => x.is_active,
                None => false,
            },
        },
        e.created_at@ == match find_environment(environments@, e.id@) {
            Some(x) => x.created_at@,
            None => timestamp@,
        },
        e.updated_at@ == timestamp@,
{
    let id = choose_id(&input.id, "environment", timestamp);
    let existing = environment_at(environments, id.as_str());
    let is_active = match input.is_active {
        Some(a) => a,
        None => match existing {
            Some(i) => environments[i].is_active,
            None => false,
        },
    };
    let created_at = match existing {
        Some(i) => copy_string(&environments[i].created_at),
        None => owned(timestamp),
    };
    Environment {
        schema_version: SCHEMA_VERSION,
        id,
        name: sanitize_name(input.name.as_str(), "Environment", 120),
        is_active,
        created_at,
        updated_at: owned(timestamp),
    }
}

// ---------------------------------------------------------------------------
// Saved requests
// ---------------------------------------------------------------------------

/// How a stored body is kept in a saved request: binary bodies, and text
/// that is not valid UTF-8, in base64; other text as it is.
pub open spec fn is_saved_body_of(b: SavedRequestBody, reference: BodyRef, bytes: Seq<u8>) -> bool {
    &&& b.content_type == reference.content_type
    &&& if !reference.is_binary && vstd::utf8::valid_utf8(bytes) {
        &&& opt_view(b.text) == Some(vstd::utf8::decode_utf8(bytes))
        &&& b.base64 is None
        &&& !b.is_binary
    } else {
        &&& b.text is None
        &&& opt_view(b.base64) == Some(base64_encoded(bytes))
        &&& b.is_binary
    }
}

pub fn saved_body(reference: &BodyRef, bytes: Vec<u8>) -> (b: SavedRequestBody)
    ensures
        is_saved_body_of(b, *reference, bytes@),
{
    let content_type = copy_opt_string(&reference.content_type);
    if reference.is_binary {
        return SavedRequestBody { text: None, base64: Some(encode_base64(bytes.as_slice())), is_binary: true, content_type };
    }
    let copy = bytes.clone();
    assert(copy@ == bytes@);
    match crate::text::utf8_string(copy) {
        Some(text) => SavedRequestBody { text: Some(text), base64: None, is_binary: false, content_type },
        None => SavedRequestBody { text: None, base64: Some(encode_base64(bytes.as_slice())), is_binary: true, content_type },
    }
}

/// The stored body a saved request made from a flow needs, if any.
pub open spec fn needs_request_body(detail: Option<FlowDetail>) -> bool {
    detail matches Some(d) && d.request matches Some(r) && r.body is Some
}

/// The outcome of saving the request of a captured flow to a collection.
pub open spec fn saved_from_flow(
    input: SaveFlowInput,
    detail: Option<FlowDetail>,
    body: Option<Seq<u8>>,
    timestamp: Seq<char>,
    r: Result<SavedRequest, AppError>,
) -> bool {
    match detail {
        None => r matches Err(e) && e.code@ == "flow_detail_missing"@,
        Some(d) => match d.request {
            None => r matches Err(e) && e.code@ == "request_detail_missing"@,
            Some(req) => r matches Ok(s) && {
                &&& s.schema_version == SCHEMA_VERSION
                &&& s.id@ == "request-"@ + timestamp
                &&& s.collection_id@ == input.collection_id@
                &&& s.name@ == match input.name {
                    Some(n) => entered_name(n@, "Saved Request"@, 120),
                    None => req.method@ + " "@ + req.host@ + req.path@,
                }
                &&& s.method == req.method
                &&& s.url == req.url
                &&& s.headers@ == req.headers@
                &&& match req.body {
                    Some(b) => s.body matches Some(sb) && is_saved_body_of(sb, b, body->0),
                    None => s.body is None,
                }
                &&& s.source_flow_id matches Some(f) && f@ == input.flow_id@
                &&& s.sort_order == 0
                &&& s.created_at@ == timestamp
                &&& s.updated_at@ == timestamp
            },
        },
    }
}

/// Saves the request of a captured flow to a collection: its method, URL,
/// headers and body, named as entered or after its request line.
/// `stored_body` holds the bytes of the request body where the request has
/// one.
pub fn save_flow_to_collection(
    input: &SaveFlowInput,
    detail: Option<FlowDetail>,
    stored_body: Option<Vec<u8>>,
    timestamp: &str,
) -> (r: Result<SavedRequest, AppError>)
    requires
        needs_request_body(detail) ==> stored_body is Some,
    ensures
        saved_from_flow(
            *input,
            detail,
            match stored_body {
                Some(b) => Some(b@),
                None => None,
            },
            timestamp@,
            r,
        ),
{
    let d = match detail {
        Some(d) => d,
        None => {
            return Err(
                AppError::new(
                    "flow_detail_missing",
                    "Full request details are required before a request can be saved.",
                    true,
                ),
            );
        },
    };
    let request = match d.request {
        Some(r) => r,
        None => {
            return Err(
                AppError::new("request_detail_missing", "The selected flow does not contain request details.", true),
            );
        },
    };
    let body = match &request.body {
        Some(reference) => match stored_body {
            Some(bytes) => Some(saved_body(reference, bytes)),
            None => None,
        },
        None => None,
    };
    let name = match &input.name {
        Some(n) => sanitize_name(n.as_str(), "Saved Request", 120),
        None => {
            let mut v = chars_of(request.method.as_str());
            extend_str(&mut v, " ");
            extend_str(&mut v, request.host.as_str());
            extend_str(&mut v, request.path.as_str());
            string_of(&v)
        },
    };
    let mut id = chars_of("request-");
    extend_str(&mut id, timestamp);
    Ok(SavedRequest {
        schema_version: SCHEMA_VERSION,
        id: string_of(&id),
        collection_id: copy_string(&input.collection_id),
        name,
        method: request.method,
        url: request.url,
        headers: request.headers,
        body,
        source_flow_id: Some(copy_string(&input.flow_id)),
        sort_order: 0,
        created_at: owned(timestamp),
        updated_at: owned(timestamp),
    })
}

// ---------------------------------------------------------------------------
// Environments and variables
// ---------------------------------------------------------------------------

/// An environment with its variables; an unknown environment is refused.
pub fn environment_snapshot(environment_id: &str, environments: &Vec<Environment>, variables: Vec<EnvironmentVariable>) -> (r: Result<EnvironmentSnapshot, AppError>)
    ensures
        match find_environment(environments@, environment_id@) {
            Some(e) => r matches Ok(s) && s.environment == e && s.variables@ == variables@,
            None => r matches Err(err) && err.code@ == "environment_missing"@ && err.message@ == "Environment not found."@,
        },
{
    match environment_at(environments, environment_id) {
        Some(i) => {
            let e = &environments[i];
            let environment = Environment {
                schema_version: e.schema_version,
                id: copy_string(&e.id),
                name: copy_string(&e.name),
                is_active: e.is_active,
                created_at: copy_string(&e.created_at),
                updated_at: copy_string(&e.updated_at),
            };
            Ok(EnvironmentSnapshot { environment, variables })
        },
        None => Err(AppError::new("environment_missing", "Environment not found.", true)),
    }
}

/// The first variable whose id is `id`.
pub open spec fn find_variable(items: Seq<EnvironmentVariable>, id: Seq<char>) -> Option<EnvironmentVariable>
    decreases items.len(),
{
    if items.len() == 0 {
        None
    } else if items[0].id@ == id {
        Some(items[0])
    } else {
        find_variable(items.drop_first(), id)
    }
}

fn variable_at(items: &Vec<EnvironmentVariable>, id: &str) -> (r: Option<usize>)
    ensures
        match r {
            Some(i) => i < items@.len() && find_variable(items@, id@) == Some(items@[i as int]),
            None => find_variable(items@, id@) is None,
        },
{
    let mut i: usize = 0;
    assert(items@.skip(0) == items@);
    while i < items.len()
        invariant
            i <= items@.len(),
            find_variable(items@, id@) == find_variable(items@.skip(i as int), id@),
        decreases items@.len() - i,
    {
        assert(items@.skip(i as int)[0] == items@[i as int]);
        assert(items@.skip(i as int).drop_first() == items@.skip(i + 1));
        if crate::text::str_eq(items[i].id.as_str(), id) {
            return Some(i);
        }
        i = i + 1;
    }
    None
}

/// The id of a variable: its environment and its key in lower case.
pub open spec fn variable_id(environment_id: Seq<char>, key: Seq<char>) -> Seq<char> {
    "envvar:"@ + environment_id + ":"@ + unicode_lowercase(key)
}

/// The reference under which the secret store keeps a secret variable.
pub open spec fn secret_reference(environment_id: Seq<char>, key: Seq<char>) -> Seq<char> {
    "env:"@ + environment_id + ":"@ + unicode_lowercase(key)
}

/// The outcome of saving a variable from the form. `existing` are the
/// variables of its environment; the second part of a saved result is the
/// secret that the variable no longer needs, to be removed from the store.
pub open spec fn saved_variable(
    input: EnvironmentVariableInput,
    existing: Seq<EnvironmentVariable>,
    r: Result<(EnvironmentVariable, Option<String>), AppError>,
) -> bool {
    let key = trim(input.key@);
    let id = variable_id(input.environment_id@, key);
    let secret_value = match input.value {
        Some(v) => v@,
        None => seq![],
    };
    if key.len() == 0 {
        r matches Err(e) && e.code@ == "environment_key_empty"@
    } else if input.is_secret && secret_value.len() > 0 {
        r matches Err(e) && e.code@ == "secure_store_unavailable"@
    } else {
        r matches Ok((v, stale)) && {
            &&& v.schema_version == SCHEMA_VERSION
            &&& v.id@ == id
            &&& v.environment_id@ == input.environment_id@
            &&& v.key@ == key
            &&& v.value == (if input.is_secret { None } else { input.value })
            &&& v.is_secret == input.is_secret
            &&& opt_view(v.secret_ref) == (if input.is_secret {
                Some(secret_reference(input.environment_id@, key))
            } else {
                None
            })
            &&& v.enabled == input.enabled
            &&& v.sort_order == match input.sort_order {
                Some(o) => o,
                None => 0,
            }
            &&& opt_view(stale) == (if input.is_secret {
                None
            } else {
                match find_variable(existing, id) {
                    Some(p) => opt_view(p.secret_ref),
                    None => None,
                }
            })
        }
    }
}

/// Saves a variable from the form. A secret value goes to the secret
/// store, which this build does not have, so a secret variable with a
/// value is refused; a variable that stops being secret gives back the
/// reference of the secret it no longer needs.
pub fn upsert_environment_variable(input: &EnvironmentVariableInput, existing: &Vec<EnvironmentVariable>) -> (r: Result<(EnvironmentVariable, Option<String>), AppError>)
    ensures
        saved_variable(*input, existing@, r),
{
    let key = trimmed(input.key.as_str());
    if key.as_str().unicode_len() == 0 {
        return Err(AppError::new("environment_key_empty", "Environment variable key cannot be empty.", true));
    }
    let lower = lowercase(key.as_str());
    let mut id = chars_of("envvar:");
    extend_str(&mut id, input.environment_id.as_str());
    extend_str(&mut id, ":");
    extend_str(&mut id, lower.as_str());
    let id = string_of(&id);
    let secret_ref = if input.is_secret {
        let mut r = chars_of("env:");
        extend_str(&mut r, input.environment_id.as_str());
        extend_str(&mut r, ":");
        extend_str(&mut r, lower.as_str());
        Some(string_of(&r))
    } else {
        None
    };
    let store = SecretStore;
    let mut stale: Option<String> = None;
    if input.is_secret {
        let has_value = match &input.value {
            Some(v) => v.as_str().unicode_len() > 0,
            None => false,
        };
        if has_value {
            if !store.is_available() {
                return Err(
                    AppError::new(
                        "secure_store_unavailable",
                        "Secure secret storage is not available in this desktop build.",
                        true,
                    ),
                );
            }
        }
    } else {
        match variable_at(existing, id.as_str()) {
            Some(i) => {
                stale = copy_opt_string(&existing[i].secret_ref);
            },
            None => {},
        }
    }
    let variable = EnvironmentVariable {
        schema_version: SCHEMA_VERSION,
        id,
        environment_id: copy_string(&input.environment_id),
        key,
        value: if input.is_secret { None } else { copy_opt_string(&input.value) },
        is_secret: input.is_secret,
        secret_ref,
        enabled: input.enabled,
        sort_order: match input.sort_order {
            Some(o) => o,
            None => 0,
        },
    };
    Ok((variable, stale))
}

/// The first active environment.
pub open spec fn first_active(items: Seq<Environment>) -> Option<int>
    decreases items.len(),
{
    if items.len() == 0 {
        None
    } else if items[0].is_active {
        Some(0)
    } else {
        match first_active(items.drop_first()) {
            Some(i) => Some(i + 1),
            None => None,
        }
    }
}

/// The index of the active environment, if one is active.
pub fn active_environment(environments: &Vec<Environment>) -> (r: Option<usize>)
    ensures
        match r {
            Some(i) => first_active(environments@) == Some(i as int),
            None => first_active(environments@) is None,
        },
{
    let mut i: usize = 0;
    while i < environments.len()
        invariant
            i <= environments@.len(),
            forall|j: int| 0 <= j < i ==> !(#[trigger] environments@[j]).is_active,
        decreases environments@.len() - i,
    {
        if environments[i].is_active {
            proof {
                lemma_first_active(environments@, i as int);
            }
            return Some(i);
        }
        i = i + 1;
    }
    proof {
        lemma_first_active(environments@, i as int);
    }
    None
}

proof fn lemma_first_active(items: Seq<Environment>, i: int)
    requires
        0 <= i <= items.len(),
        forall|j: int| 0 <= j < i ==> !(#[trigger] items[j]).is_active,
    ensures
        i < items.len() && items[i].is_active ==> first_active(items) == Some(i),
        i == items.len() ==> first_active(items) is None,
    decreases i,
{
    if i > 0 {
        let t = items.drop_first();
        assert forall|j: int| 0 <= j < i - 1 implies !(#[trigger] t[j]).is_active by {
            assert(t[j] == items[j + 1]);
        }
        lemma_first_active(t, i - 1);
        if i < items.len() {
            assert(t[i - 1] == items[i]);
        }
    }
}

/// The values the enabled variables give a template, in order (a later
/// variable with the same key wins), or the first failure: a secret
/// variable without its reference, or one whose value the secret store
/// cannot give, which this build's store never can.
pub open spec fn variable_values(vars: Seq<EnvironmentVariable>) -> Result<Seq<(Seq<char>, Seq<char>, bool)>, (Seq<char>, Seq<char>)>
    decreases vars.len(),
{
    if vars.len() == 0 {
        Ok(seq![])
    } else {
        let v = vars[0];
        if !v.enabled {
            variable_values(vars.drop_first())
        } else if v.is_secret {
            match v.secret_ref {
                None => Err(
                    (
                        "secret_reference_missing"@,
                        "Secret variable '"@ + v.key@ + "' is missing its secure-store reference."@,
                    ),
                ),
                Some(_) => Err(("secure_store_unsupported"@, crate::secret::unsupported_message())),
            }
        } else {
            match variable_values(vars.drop_first()) {
                Ok(rest) => Ok(
                    seq![
                        (
                            v.key@,
                            match v.value {
                                Some(x) => x@,
                                None => seq![],
                            },
                            false,
                        ),
                    ] + rest,
                ),
                Err(e) => Err(e),
            }
        }
    }
}

fn fill_values(vars: &Vec<EnvironmentVariable>) -> (r: Result<VariableMap, AppError>)
    ensures
        match variable_values(vars@) {
            Ok(entries) => r matches Ok(m) && forall|k: Seq<char>| lookup(m@, k) == lookup(entries, k),
            Err((code, message)) => r matches Err(e) && e.code@ == code && e.message@ == message,
        },
{
    let mut values = VariableMap::new();
    let mut i: usize = 0;
    let ghost mut done: Seq<(Seq<char>, Seq<char>, bool)> = seq![];
    let store = SecretStore;
    assert(vars@.skip(0) == vars@);
    while i < vars.len()
        invariant
            i <= vars@.len(),
            forall|k: Seq<char>| lookup(values@, k) == lookup(done, k),
            variable_values(vars@) == match variable_values(vars@.skip(i as int)) {
                Ok(rest) => Ok(done + rest),
                Err(e) => Err(e),
            },
        decreases vars@.len() - i,
    {
        let v = &vars[i];
        assert(vars@.skip(i as int)[0] == vars@[i as int]);
        assert(vars@.skip(i as int).drop_first() == vars@.skip(i + 1));
        if v.enabled && v.is_secret {
            match &v.secret_ref {
                None => {
                    let mut m = chars_of("Secret variable '");
                    extend_str(&mut m, v.key.as_str());
                    extend_str(&mut m, "' is missing its secure-store reference.");
                    return Err(AppError::new("secret_reference_missing", string_of(&m).as_str(), true));
                },
                Some(reference) => match store.get(reference.as_str()) {
                    Err(e) => {
                        return Err(AppError::new(e.code.as_str(), e.message.as_str(), true));
                    },
                    Ok(None) => {
                        let mut m = chars_of("Secret variable '");
                        extend_str(&mut m, v.key.as_str());
                        extend_str(&mut m, "' has no value in secure storage.");
                        return Err(AppError::new("secret_value_missing", string_of(&m).as_str(), true));
                    },
                    Ok(Some(secret)) => {
                        values.insert(copy_string(&v.key), secret, true);
                    },
                },
            }
        } else if v.enabled {
            let value = match &v.value {
                Some(x) => copy_string(x),
                None => String::new(),
            };
            let ghost entry = (v.key@, value@, false);
            proof {
                assert forall|k: Seq<char>| lookup(done.push(entry), k) == (if k == entry.0 {
                    Some((entry.1, entry.2))
                } else {
                    lookup(done, k)
                }) by {
                    assert(done.push(entry).drop_last() == done);
                }
                assert(seq![entry] + variable_values(vars@.skip(i + 1))->Ok_0 == variable_values(vars@.skip(i as int))->Ok_0
                    || variable_values(vars@.skip(i + 1)) is Err);
            }
            values.insert(copy_string(&v.key), value, false);
            proof {
                match variable_values(vars@.skip(i + 1)) {
                    Ok(rest) => {
                        assert(done + (seq![entry] + rest) == done.push(entry) + rest);
                    },
                    Err(_) => {},
                }
                done = done.push(entry);
            }
        }
        i = i + 1;
    }
    assert(vars@.skip(i as int).len() == 0);
    assert(done + seq![] == done);
    Ok(values)
}

/// Fills a template from the active environment: nothing changes where no
/// environment is active; otherwise its enabled variables give the values
/// (`variables` are those of the active environment).
pub fn interpolate_with_active_environment(
    template: &str,
    environments: &Vec<Environment>,
    variables: &Vec<EnvironmentVariable>,
) -> (r: Result<InterpolationResult, AppError>)
    ensures
        first_active(environments@) is None ==> (r matches Ok(res) && res.value@ == template@ && !res.used_secret
            && res.missing_variables@.len() == 0),
        first_active(environments@) is Some ==> match variable_values(variables@) {
            Ok(entries) => r matches Ok(res) && res.value@ == interp(template@, entries).0 && res.used_secret == interp(
                template@,
                entries,
            ).1 && crate::order::string_views(res.missing_variables@).to_set() == interp(template@, entries).2.to_set(),
            Err((code, message)) => r matches Err(e) && e.code@ == code && e.message@ == message,
        },
{
    if active_environment(environments).is_none() {
        return Ok(InterpolationResult { value: owned(template), used_secret: false, missing_variables: Vec::new() });
    }
    let values = match fill_values(variables) {
        Ok(v) => v,
        Err(e) => {
            return Err(e);
        },
    };
    let res = crate::interpolation::interpolate(template, &values);
    proof {
        let entries = variable_values(variables@)->Ok_0;
        crate::interpolation::lemma_interp_same_lookup(template@, values@, entries);
    }
    Ok(res)
}

/// The secrets kept for the variables of an environment that is deleted.
pub fn environment_secrets(variables: &Vec<EnvironmentVariable>) -> (r: Vec<String>)
    ensures
        r@.map_values(|s: String| s@) == secret_refs(variables@),
{
    let mut r: Vec<String> = Vec::new();
    let mut i: usize = 0;
    while i < variables.len()
        invariant
            i <= variables@.len(),
            r@.map_values(|s: String| s@) == secret_refs(variables@.take(i as int)),
        decreases variables@.len() - i,
    {
        assert(variables@.take(i + 1).drop_last() == variables@.take(i as int));
        assert(variables@.take(i + 1).last() == variables@[i as int]);
        match &variables[i].secret_ref {
            Some(reference) => {
                let ghost before = r@;
                r.push(copy_string(reference));
                assert(r@.map_values(|s: String| s@) == before.map_values(|s: String| s@).push(reference@));
            },
            None => {},
        }
        i = i + 1;
    }
    assert(variables@.take(variables@.len() as int) == variables@);
    r
}

pub open spec fn secret_refs(vars: Seq<EnvironmentVariable>) -> Seq<Seq<char>>
    decreases vars.len(),
{
    if vars.len() == 0 {
        seq![]
    } else {
        match vars.last().secret_ref {
            Some(s) => secret_refs(vars.drop_last()).push(s@),
            None => secret_refs(vars.drop_last()),
        }
    }
}

/// The secret kept for the variable `id` of an environment, removed with it.
pub fn variable_secret(variables: &Vec<EnvironmentVariable>, id: &str) -> (r: Option<String>)
    ensures
        opt_view(r) == match find_variable(variables@, id@) {
            Some(v) => opt_view(v.secret_ref),
            None => None,
        },
{
    match variable_at(variables, id) {
        Some(i) => copy_opt_string(&variables[i].secret_ref),
        None => None,
    }
}

} // verus!
