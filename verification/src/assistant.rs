//! The assistant's settings, the evidence it is shown for a comparison or a
//! flow, and how its provider's answers are read.
use vstd::prelude::*;

use crate::ai::{
    build_context_preview, context_of, default_secret_json_keys, default_secret_keys, fingerprint_of,
    task_name, AiContextPolicy, AiContextPreview, AiError, AiProviderResponse, AiTaskKind,
    DEFAULT_OPENAI_MODEL, OPENAI_PROVIDER_ID,
};
use crate::json::{JsonTree, JsonValue};
use crate::model::AppError;
use crate::order::{string_views, strictly_sorted};
use crate::text::{copy_string, owned, seq_lower, trim};

verus! {

pub const PREF_AI_PROVIDER: &'static str = "ai.provider";

pub const PREF_AI_MODEL: &'static str = "ai.model";

pub const PREF_AI_SECRET_KEYS: &'static str = "ai.secret_json_keys";

pub const OPENAI_KEY_REF: &'static str = "ai:openai:api-key";

/// One stored answer of the assistant.
#[derive(Debug, Clone, PartialEq, Eq)]
pub struct AiResultRecord {
    pub id: String,
    pub task_kind: String,
    pub source_ref: String,
    pub provider: String,
    pub model: String,
    pub context_fingerprint: String,
    pub remote_response_id: Option<String>,
    pub output_text: String,
    pub created_at: String,
}

/// The store of the assistant's answers: a database file.
#[derive(Debug, Clone, PartialEq, Eq)]
pub struct AiDatabase {
    path: String,
}

impl AiDatabase {
    pub fn new(path: String) -> (d: Self)
        ensures
            d.path_view() == path@,
    {
        AiDatabase { path }
    }

    pub closed spec fn path_view(&self) -> Seq<char> {
        self.path@
    }

    /// Where the database file is.
    pub fn path(&self) -> (r: &str)
        ensures
            r@ == self.path_view(),
    {
        self.path.as_str()
    }
}

#[derive(Debug, Clone, PartialEq, Eq)]
pub struct AiSettingsSnapshot {
    pub provider: String,
    pub model: String,
    pub api_key_configured: bool,
    pub secure_store_available: bool,
    pub secret_json_keys: Vec<String>,
}

#[derive(Debug, Clone, PartialEq, Eq)]
pub struct AiSettingsInput {
    pub provider: String,
    pub model: String,
    pub api_key: Option<String>,
    pub secret_json_keys: Vec<String>,
}

#[derive(Debug, Clone, PartialEq, Eq)]
pub struct AiGenerateInput {
    pub expected_context_fingerprint: String,
}

#[derive(Debug, Clone, PartialEq, Eq)]
pub struct AiGenerationResult {
    pub record: AiResultRecord,
    pub context: AiContextPreview,
}

// ---------------------------------------------------------------------------
// Secret keys
// ---------------------------------------------------------------------------

/// The configured secret keys, trimmed and in lower case, without blanks.
pub open spec fn key_forms(values: Seq<Seq<char>>) -> Set<Seq<char>> {
    Set::new(|k: Seq<char>| exists|i: int| 0 <= i < values.len() && k == seq_lower(trim(values[i])) && k.len() > 0)
}

/// The secret keys as stored: ascending and without repeats, or the
/// default keys where none is left.
pub open spec fn is_key_list(values: Seq<Seq<char>>, r: Seq<Seq<char>>) -> bool {
    if key_forms(values).is_empty() {
        r == default_secret_keys()
    } else {
        strictly_sorted(r) && r.to_set() == key_forms(values)
    }
}

pub fn normalize_secret_keys(values: Vec<String>) -> (r: Vec<String>)
    ensures
        is_key_list(string_views(values@), string_views(r@)),
{
    let ghost vs = string_views(values@);
    let mut out: Vec<String> = Vec::new();
    for i in 0..values.len()
        invariant
            vs == string_views(values@),
            strictly_sorted(string_views(out@)),
            string_views(out@).to_set() == key_forms(vs.take(i as int)),
    {
        let t = crate::text::trimmed(values[i].as_str());
        let k = crate::text::to_lower(t.as_str());
        let ghost before = vs.take(i as int);
        let ghost after = vs.take(i + 1);
        assert(after == before.push(vs[i as int]));
        assert(vs[i as int] == values@[i as int]@);
        if k.as_str().as_bytes().len() > 0 {
            let ghost kk = k@;
            crate::order::insert_sorted_unique(&mut out, k);
            proof {
                assert(vstd::utf8::encode_utf8(kk).len() > 0);
                if kk.len() == 0 {
                    assert(kk =~= Seq::<char>::empty());
                    assert(vstd::utf8::encode_utf8(kk) =~= Seq::<u8>::empty());
                }
                assert(key_forms(after) =~= key_forms(before).insert(kk)) by {
                    assert forall|x: Seq<char>| key_forms(after).contains(x) <==> key_forms(before).insert(kk).contains(x) by {
                        if key_forms(after).contains(x) {
                            let j = choose|j: int| 0 <= j < after.len() && x == seq_lower(trim(after[j])) && x.len() > 0;
                            if j < i {
                                assert(before[j] == after[j]);
                            }
                        }
                        if key_forms(before).contains(x) {
                            let j = choose|j: int| 0 <= j < before.len() && x == seq_lower(trim(before[j])) && x.len() > 0;
                            assert(after[j] == before[j]);
                        }
                        if x == kk {
                            assert(after[i as int] == vs[i as int]);
                        }
                    }
                }
            }
        } else {
            proof {
                assert(k@.len() == 0) by {
                    if k@.len() > 0 {
                        assert(k@ == seq![k@[0]] + k@.drop_first());
                        vstd::utf8::encode_utf8_first_scalar(k@);
                    }
                }
                assert(key_forms(after) =~= key_forms(before)) by {
                    assert forall|x: Seq<char>| key_forms(after).contains(x) <==> key_forms(before).contains(x) by {
                        if key_forms(after).contains(x) {
                            let j = choose|j: int| 0 <= j < after.len() && x == seq_lower(trim(after[j])) && x.len() > 0;
                            if j < i {
                                assert(before[j] == after[j]);
                            }
                        }
                        if key_forms(before).contains(x) {
                            let j = choose|j: int| 0 <= j < before.len() && x == seq_lower(trim(before[j])) && x.len() > 0;
                            assert(after[j] == before[j]);
                        }
                    }
                }
            }
        }
    }
    assert(vs.take(vs.len() as int) == vs);
    if out.len() == 0 {
        proof {
            assert(string_views(out@).to_set() =~= Set::<Seq<char>>::empty());
        }
        default_secret_json_keys()
    } else {
        proof {
            assert(string_views(out@).to_set().contains(string_views(out@)[0]));
        }
        out
    }
}

// ---------------------------------------------------------------------------
// Settings
// ---------------------------------------------------------------------------

/// The items of a JSON array of strings.
pub open spec fn string_items(t: JsonTree) -> Option<Seq<Seq<char>>> {
    match t {
        JsonTree::Array(items) => if forall|i: int| 0 <= i < items.len() ==> (#[trigger] items[i]) is Str {
            Some(items.map_values(|x: JsonTree| x->Str_0))
        } else {
            None
        },
        _ => None,
    }
}

fn string_list(value: &JsonValue) -> (r: Option<Vec<String>>)
    ensures
        match r {
            Some(v) => string_items(crate::json::tree_of(*value)) == Some(string_views(v@)),
            None => string_items(crate::json::tree_of(*value)) is None,
        },
{
    match value {
        JsonValue::Array(items) => {
            let ghost iv = crate::json::trees_of(items@);
            proof {
                crate::json::lemma_trees_of_index(items@);
            }
            let mut out: Vec<String> = Vec::new();
            for i in 0..items.len()
                invariant
                    *value == JsonValue::Array(*items),
                    iv == crate::json::trees_of(items@),
                    iv.len() == items@.len(),
                    forall|j: int| 0 <= j < items@.len() ==> #[trigger] iv[j] == crate::json::tree_of(items@[j]),
                    out@.len() == i,
                    forall|j: int| 0 <= j < i ==> (#[trigger] iv[j]) is Str && iv[j]->Str_0 == out@[j]@,
            {
                match &items[i] {
                    JsonValue::String(s) => out.push(copy_string(s)),
                    _ => {
                        assert(!(iv[i as int] is Str));
                        assert(crate::json::tree_of(*value) == JsonTree::Array(iv));
                        return None;
                    },
                }
            }
            assert(string_views(out@) =~= iv.map_values(|x: JsonTree| x->Str_0));
            Some(out)
        },
        _ => None,
    }
}

/// The secret keys stored as a JSON list, normalized; the default keys
/// where none is stored or it is not a list of strings.
pub open spec fn stored_keys_valid(stored: Option<Seq<char>>, r: Seq<Seq<char>>) -> bool {
    match stored {
        Some(text) => match crate::json::json_parse(text) {
            Ok(v) => match string_items(crate::json::tree_of(v)) {
                Some(items) => is_key_list(items, r),
                None => r == default_secret_keys(),
            },
            Err(_) => r == default_secret_keys(),
        },
        None => r == default_secret_keys(),
    }
}

/// The assistant's settings from what is stored: the provider and model
/// (OpenAI and its default model where none is stored), the secret keys,
/// and whether an API key is in the secure store.
pub fn ai_settings(
    stored_provider: Option<String>,
    stored_model: Option<String>,
    stored_keys: Option<String>,
    secure_store_available: bool,
    api_key_stored: bool,
) -> (s: AiSettingsSnapshot)
    ensures
        s.provider@ == (match stored_provider {
            Some(p) => p@,
            None => OPENAI_PROVIDER_ID@,
        }),
        s.model@ == (match stored_model {
            Some(m) => m@,
            None => DEFAULT_OPENAI_MODEL@,
        }),
        stored_keys_valid(crate::compare::opt_view(stored_keys), string_views(s.secret_json_keys@)),
        s.api_key_configured == (secure_store_available && api_key_stored),
        s.secure_store_available == secure_store_available,
{
    let provider = match stored_provider {
        Some(p) => p,
        None => owned(OPENAI_PROVIDER_ID),
    };
    let model = match stored_model {
        Some(m) => m,
        None => owned(DEFAULT_OPENAI_MODEL),
    };
    let secret_json_keys = match &stored_keys {
        Some(text) => match crate::json::parse_json(text.as_str()) {
            Ok(v) => match string_list(&v) {
                Some(items) => normalize_secret_keys(items),
                None => default_secret_json_keys(),
            },
            Err(_) => default_secret_json_keys(),
        },
        None => default_secret_json_keys(),
    };
    AiSettingsSnapshot {
        provider,
        model,
        api_key_configured: secure_store_available && api_key_stored,
        secure_store_available,
        secret_json_keys,
    }
}

/// The policy the settings give: the default limits with the configured
/// secret keys.
pub fn context_policy(settings: &AiSettingsSnapshot) -> (p: AiContextPolicy)
    ensures
        p.max_context_bytes == 120_000,
        p.max_string_chars == 12_000,
        string_views(p.secret_json_keys@) == string_views(settings.secret_json_keys@),
{
    let mut keys: Vec<String> = Vec::new();
    for i in 0..settings.secret_json_keys.len()
        invariant
            keys@.len() == i,
            forall|j: int| 0 <= j < i ==> (#[trigger] keys@[j])@ == settings.secret_json_keys@[j]@,
    {
        keys.push(copy_string(&settings.secret_json_keys[i]));
    }
    assert(string_views(keys@) =~= string_views(settings.secret_json_keys@));
    AiContextPolicy { max_context_bytes: 120_000, max_string_chars: 12_000, secret_json_keys: keys }
}

/// What new settings store: the model, trimmed, and the normalized keys.
/// Only the OpenAI provider is accepted, and a model must be named.
pub fn validate_ai_settings(input: &AiSettingsInput) -> (r: Result<(String, Vec<String>), AppError>)
    ensures
        trim(input.provider@) != OPENAI_PROVIDER_ID@ ==> (r matches Err(e) && e.code@ == "ai_provider_unsupported"@),
        trim(input.provider@) == OPENAI_PROVIDER_ID@ && trim(input.model@).len() == 0 ==> (r matches Err(e)
            && e.code@ == "ai_model_required"@),
        trim(input.provider@) == OPENAI_PROVIDER_ID@ && trim(input.model@).len() > 0 ==> (r matches Ok((m, k))
            && m@ == trim(input.model@) && is_key_list(string_views(input.secret_json_keys@), string_views(k@))),
{
    let provider = crate::text::trimmed(input.provider.as_str());
    if !crate::text::str_eq(provider.as_str(), OPENAI_PROVIDER_ID) {
        return Err(
            AppError::new(
                "ai_provider_unsupported",
                "Only the OpenAI provider is implemented in this release.",
                true,
            ),
        );
    }
    let model = crate::text::trimmed(input.model.as_str());
    if crate::text::chars_of(model.as_str()).len() == 0 {
        return Err(AppError::new("ai_model_required", "Choose an OpenAI model.", true));
    }
    let mut keys: Vec<String> = Vec::new();
    for i in 0..input.secret_json_keys.len()
        invariant
            keys@.len() == i,
            forall|j: int| 0 <= j < i ==> (#[trigger] keys@[j])@ == input.secret_json_keys@[j]@,
    {
        keys.push(copy_string(&input.secret_json_keys[i]));
    }
    assert(string_views(keys@) =~= string_views(input.secret_json_keys@));
    Ok((model, normalize_secret_keys(keys)))
}

// ---------------------------------------------------------------------------
// Evidence for the assistant
// ---------------------------------------------------------------------------

fn ai_error(e: AiError) -> (r: AppError)
    ensures
        r.code@ == e.code@,
        r.message@ == e.message@,
        r.recoverable == e.recoverable,
{
    AppError { code: e.code, message: e.message, recoverable: e.recoverable }
}

/// The preview of some evidence, with an assistant error reported as an
/// application error.
pub open spec fn preview_holds(value: JsonTree, policy: AiContextPolicy, r: Result<AiContextPreview, AppError>) -> bool {
    match context_of(value, string_views(policy.secret_json_keys@), policy.max_context_bytes as nat, policy.max_string_chars as nat) {
        Ok((json, n, cut)) => r matches Ok(p) && p.json@ == json && p.context_fingerprint@ == fingerprint_of(json)
            && p.byte_count == vstd::utf8::encode_utf8(json).len() && p.redaction_count == crate::ai::capped(n)
            && p.truncated == cut,
        Err(message) => r matches Err(e) && e.code@ == "ai_context_serialize_failed"@ && e.message@ == message
            && e.recoverable,
    }
}

fn preview_value(value: &JsonValue, policy: &AiContextPolicy) -> (r: Result<AiContextPreview, AppError>)
    ensures
        preview_holds(crate::json::tree_of(*value), *policy, r),
{
    match build_context_preview(value, policy) {
        Ok(p) => Ok(p),
        Err(e) => Err(ai_error(e)),
    }
}

/// The evidence of a session comparison.
pub open spec fn session_evidence(comparison: JsonTree) -> JsonTree {
    JsonTree::Object(
        seq![
            ("comparison"@, comparison),
            ("evidencePolicy"@, JsonTree::Str("deterministic comparison is source of truth; AI explains evidence only"@)),
            ("task"@, JsonTree::Str("session_diff"@)),
        ],
    )
}

/// The evidence of one flow.
pub open spec fn flow_evidence(flow: JsonTree, request_body: JsonTree, response_body: JsonTree, app_context: JsonTree) -> JsonTree {
    JsonTree::Object(
        seq![
            ("appContext"@, app_context),
            ("evidencePolicy"@, JsonTree::Str("captured network and SDK context are source of truth; AI explains evidence only"@)),
            ("flow"@, flow),
            ("requestBody"@, request_body),
            ("responseBody"@, response_body),
            ("task"@, JsonTree::Str("flow_diagnosis"@)),
        ],
    )
}

/// The evidence of a comparison of two sessions (given as the JSON of
/// their comparison), as the assistant would be shown it. A session
/// cannot be compared with itself.
pub fn preview_session_ai_context(
    baseline_session_id: &str,
    candidate_session_id: &str,
    comparison: JsonValue,
    policy: &AiContextPolicy,
) -> (r: Result<AiContextPreview, AppError>)
    ensures
        baseline_session_id@ == candidate_session_id@ ==> (r matches Err(e) && e.code@ == "compare_same_session"@ && e.recoverable),
        baseline_session_id@ != candidate_session_id@ ==> preview_holds(
            session_evidence(crate::json::tree_of(comparison)),
            *policy,
            r,
        ),
{
    if crate::text::str_eq(baseline_session_id, candidate_session_id) {
        return Err(
            AppError::new(
                "compare_same_session",
                "Choose two different sessions before preparing AI context.",
                true,
            ),
        );
    }
    let ghost c = crate::json::tree_of(comparison);
    let mut members: Vec<(String, JsonValue)> = Vec::new();
    members.push((owned("comparison"), comparison));
    members.push(
        (
            owned("evidencePolicy"),
            JsonValue::String(owned("deterministic comparison is source of truth; AI explains evidence only")),
        ),
    );
    members.push((owned("task"), JsonValue::String(owned("session_diff"))));
    proof {
        crate::json::lemma_members_of_index(members@);
        assert(crate::json::members_of(members@) =~= seq![
            ("comparison"@, c),
            ("evidencePolicy"@, JsonTree::Str("deterministic comparison is source of truth; AI explains evidence only"@)),
            ("task"@, JsonTree::Str("session_diff"@)),
        ]);
    }
    let value = JsonValue::Object(members);
    preview_value(&value, policy)
}

/// The evidence of one captured flow (given as the JSON of its detail,
/// bodies and app context), as the assistant would be shown it; a flow
/// that was not found is reported.
pub fn preview_flow_ai_context(
    flow: Option<JsonValue>,
    request_body: JsonValue,
    response_body: JsonValue,
    app_context: JsonValue,
    policy: &AiContextPolicy,
) -> (r: Result<AiContextPreview, AppError>)
    ensures
        flow is None ==> (r matches Err(e) && e.code@ == "ai_flow_missing"@),
        flow matches Some(f) ==> preview_holds(
            flow_evidence(
                crate::json::tree_of(f),
                crate::json::tree_of(request_body),
                crate::json::tree_of(response_body),
                crate::json::tree_of(app_context),
            ),
            *policy,
            r,
        ),
{
    let detail = match flow {
        Some(f) => f,
        None => {
            return Err(AppError::new("ai_flow_missing", "Captured flow was not found.", true));
        },
    };
    let ghost t = (
        crate::json::tree_of(detail),
        crate::json::tree_of(request_body),
        crate::json::tree_of(response_body),
        crate::json::tree_of(app_context),
    );
    let mut members: Vec<(String, JsonValue)> = Vec::new();
    members.push((owned("appContext"), app_context));
    members.push(
        (
            owned("evidencePolicy"),
            JsonValue::String(owned("captured network and SDK context are source of truth; AI explains evidence only")),
        ),
    );
    members.push((owned("flow"), detail));
    members.push((owned("requestBody"), request_body));
    members.push((owned("responseBody"), response_body));
    members.push((owned("task"), JsonValue::String(owned("flow_diagnosis"))));
    proof {
        crate::json::lemma_members_of_index(members@);
        assert(crate::json::members_of(members@) =~= seq![
            ("appContext"@, t.3),
            ("evidencePolicy"@, JsonTree::Str("captured network and SDK context are source of truth; AI explains evidence only"@)),
            ("flow"@, t.0),
            ("requestBody"@, t.1),
            ("responseBody"@, t.2),
            ("task"@, JsonTree::Str("flow_diagnosis"@)),
        ]);
    }
    let value = JsonValue::Object(members);
    preview_value(&value, policy)
}

/// Evidence may only be sent as it was previewed: the fingerprint the user
/// saw must be that of the evidence now.
pub fn verify_preview(preview: &AiContextPreview, input: &AiGenerateInput) -> (r: Result<(), AppError>)
    ensures
        r is Ok <==> preview.context_fingerprint@ == input.expected_context_fingerprint@,
        r matches Err(e) ==> e.code@ == "ai_context_changed"@ && e.recoverable,
{
    if !crate::text::str_eq(preview.context_fingerprint.as_str(), input.expected_context_fingerprint.as_str()) {
        return Err(
            AppError::new(
                "ai_context_changed",
                "The redacted AI context changed after preview. Review the new preview before sending it.",
                true,
            ),
        );
    }
    Ok(())
}

/// The record kept of an answer: `ai-<task>-<time>`, with what was asked
/// and answered.
pub fn result_record(
    task: AiTaskKind,
    source_ref: String,
    response: AiProviderResponse,
    context_fingerprint: &str,
    created_at: String,
) -> (r: AiResultRecord)
    ensures
        r.id@ == "ai-"@ + task_name(task) + "-"@ + created_at@,
        r.task_kind@ == task_name(task),
        r.source_ref@ == source_ref@,
        r.provider@ == response.provider@,
        r.model@ == response.model@,
        r.context_fingerprint@ == context_fingerprint@,
        r.remote_response_id == response.remote_response_id,
        r.output_text@ == response.output_text@,
        r.created_at@ == created_at@,
{
    let mut id = crate::text::chars_of("ai-");
    crate::text::extend_str(&mut id, task.as_str());
    crate::text::extend_str(&mut id, "-");
    crate::text::extend_str(&mut id, created_at.as_str());
    AiResultRecord {
        id: crate::text::string_of(&id),
        task_kind: owned(task.as_str()),
        source_ref,
        provider: response.provider,
        model: response.model,
        context_fingerprint: owned(context_fingerprint),
        remote_response_id: response.remote_response_id,
        output_text: response.output_text,
        created_at,
    }
}


// ---------------------------------------------------------------------------
// The provider's side
// ---------------------------------------------------------------------------

/// What the provider is told to do for each task.
pub fn developer_instruction(task: AiTaskKind) -> (r: &'static str)
    ensures
        task == AiTaskKind::SessionDiff ==> r@ == "You are analyzing deterministic network-session comparison evidence from a mobile API debugger. Explain only what is supported by the supplied evidence. Prioritize missing/extra calls, status or payload/schema differences, timing regressions, retry/error patterns, and app screen/feature/source context. Separate observed facts from plausible hypotheses. Give concise next debugging actions. Do not invent requests, code locations, or backend behavior."@,
        task == AiTaskKind::FlowDiagnosis ==> r@ == "You are diagnosing one captured mobile API flow. Explain only what is supported by the supplied redacted request/response/timing/app-context evidence. Identify likely failure or latency causes, distinguish facts from hypotheses, and give concise next debugging actions. Do not invent headers, payload fields, code locations, or backend behavior."@,
{
    match task {
        AiTaskKind::SessionDiff => "You are analyzing deterministic network-session comparison evidence from a mobile API debugger. Explain only what is supported by the supplied evidence. Prioritize missing/extra calls, status or payload/schema differences, timing regressions, retry/error patterns, and app screen/feature/source context. Separate observed facts from plausible hypotheses. Give concise next debugging actions. Do not invent requests, code locations, or backend behavior.",
        AiTaskKind::FlowDiagnosis => "You are diagnosing one captured mobile API flow. Explain only what is supported by the supplied redacted request/response/timing/app-context evidence. Identify likely failure or latency causes, distinguish facts from hypotheses, and give concise next debugging actions. Do not invent headers, payload fields, code locations, or backend behavior.",
    }
}

/// A provider needs an API key and a model, neither of them blank.
pub fn check_provider_credentials(api_key: &str, model: &str) -> (r: Result<(), AiError>)
    ensures
        trim(api_key@).len() == 0 ==> (r matches Err(e) && e.code@ == "ai_api_key_missing"@),
        trim(api_key@).len() > 0 && trim(model@).len() == 0 ==> (r matches Err(e) && e.code@ == "ai_model_missing"@),
        trim(api_key@).len() > 0 && trim(model@).len() > 0 ==> r is Ok,
{
    if crate::text::is_blank(api_key) {
        return Err(AiError::new("ai_api_key_missing", "OpenAI API key is required.", true));
    }
    if crate::text::is_blank(model) {
        return Err(AiError::new("ai_model_missing", "OpenAI model is required.", true));
    }
    Ok(())
}

/// A member of an object.
pub open spec fn field(t: JsonTree, key: Seq<char>) -> Option<JsonTree> {
    match t {
        JsonTree::Object(members) => crate::ai::member_of(members, key),
        _ => None,
    }
}

/// A member of an object that is a string.
pub open spec fn text_field(t: JsonTree, key: Seq<char>) -> Option<Seq<char>> {
    match field(t, key) {
        Some(JsonTree::Str(s)) => Some(s),
        _ => None,
    }
}

/// The texts of the `output_text` parts of a message, in order.
pub open spec fn part_texts(parts: Seq<JsonTree>) -> Seq<Seq<char>>
    decreases parts.len(),
{
    if parts.len() == 0 {
        seq![]
    } else {
        let p = parts.last();
        if text_field(p, "type"@) == Some("output_text"@) && text_field(p, "text"@) is Some {
            part_texts(parts.drop_last()).push(text_field(p, "text"@)->0)
        } else {
            part_texts(parts.drop_last())
        }
    }
}

/// The texts of the messages of an output, in order.
pub open spec fn output_texts(items: Seq<JsonTree>) -> Seq<Seq<char>>
    decreases items.len(),
{
    if items.len() == 0 {
        seq![]
    } else {
        let item = items.last();
        if text_field(item, "type"@) == Some("message"@) && (field(item, "content"@) matches Some(JsonTree::Array(c))) {
            output_texts(items.drop_last()) + part_texts(field(item, "content"@)->0->Array_0)
        } else {
            output_texts(items.drop_last())
        }
    }
}

/// Texts joined with line breaks.
pub open spec fn join_lines(parts: Seq<Seq<char>>) -> Seq<char>
    decreases parts.len(),
{
    if parts.len() == 0 {
        seq![]
    } else if parts.len() == 1 {
        parts[0]
    } else {
        join_lines(parts.drop_last()) + seq!['\n'] + parts.last()
    }
}

/// The text of a provider's answer: its message texts joined with line
/// breaks, if there are any.
pub open spec fn response_text(response: JsonTree) -> Option<Seq<char>> {
    match field(response, "output"@) {
        Some(JsonTree::Array(items)) => if output_texts(items).len() == 0 {
            None
        } else {
            Some(join_lines(output_texts(items)))
        },
        _ => None,
    }
}

/// The member `key` of an object value, if the value is an object with it.
pub(crate) fn field_of<'a>(value: &'a JsonValue, key: &str) -> (r: Option<&'a JsonValue>)
    ensures
        match r {
            Some(v) => field(crate::json::tree_of(*value), key@) == Some(crate::json::tree_of(*v)),
            None => field(crate::json::tree_of(*value), key@) is None,
        },
{
    match value {
        JsonValue::Object(members) => match crate::ai::member_lookup_pub(members, key) {
            Some(i) => Some(&members[i].1),
            None => None,
        },
        _ => None,
    }
}

pub(crate) fn text_field_of(value: &JsonValue, key: &str) -> (r: Option<String>)
    ensures
        match r {
            Some(s) => text_field(crate::json::tree_of(*value), key@) == Some(s@),
            None => text_field(crate::json::tree_of(*value), key@) is None,
        },
{
    match field_of(value, key) {
        Some(JsonValue::String(s)) => Some(copy_string(s)),
        _ => None,
    }
}

/// The text of a provider's answer.
pub fn extract_response_text(response: &JsonValue) -> (r: Option<String>)
    ensures
        match r {
            Some(s) => response_text(crate::json::tree_of(*response)) == Some(s@),
            None => response_text(crate::json::tree_of(*response)) is None,
        },
{
    let items = match field_of(response, "output") {
        Some(JsonValue::Array(items)) => items,
        _ => {
            return None;
        },
    };
    let ghost iv = crate::json::trees_of(items@);
    proof {
        crate::json::lemma_trees_of_index(items@);
    }
    let mut parts: Vec<String> = Vec::new();
    for i in 0..items.len()
        invariant
            iv == crate::json::trees_of(items@),
            iv.len() == items@.len(),
            forall|j: int| 0 <= j < items@.len() ==> #[trigger] iv[j] == crate::json::tree_of(items@[j]),
            string_views(parts@) == output_texts(iv.take(i as int)),
    {
        let item = &items[i];
        let ghost before = iv.take(i as int);
        assert(iv.take(i + 1).drop_last() == before);
        assert(iv.take(i + 1).last() == crate::json::tree_of(*item));
        let kind = text_field_of(item, "type");
        let is_message = match &kind {
            Some(k) => crate::text::str_eq(k.as_str(), "message"),
            None => false,
        };
        if is_message {
            match field_of(item, "content") {
                Some(JsonValue::Array(content)) => {
                    let ghost cv = crate::json::trees_of(content@);
                    proof {
                        crate::json::lemma_trees_of_index(content@);
                    }
                    let ghost start = string_views(parts@);
                    for j in 0..content.len()
                        invariant
                            cv == crate::json::trees_of(content@),
                            cv.len() == content@.len(),
                            forall|x: int| 0 <= x < content@.len() ==> #[trigger] cv[x] == crate::json::tree_of(content@[x]),
                            string_views(parts@) == start + part_texts(cv.take(j as int)),
                    {
                        let part = &content[j];
                        assert(cv.take(j + 1).drop_last() == cv.take(j as int));
                        assert(cv.take(j + 1).last() == crate::json::tree_of(*part));
                        let part_kind = text_field_of(part, "type");
                        let is_text = match &part_kind {
                            Some(k) => crate::text::str_eq(k.as_str(), "output_text"),
                            None => false,
                        };
                        if is_text {
                            match text_field_of(part, "text") {
                                Some(t) => {
                                    let ghost b = string_views(parts@);
                                    parts.push(t);
                                    assert(string_views(parts@) == b.push(parts@.last()@));
                                },
                                None => {},
                            }
                        }
                    }
                    assert(cv.take(cv.len() as int) == cv);
                },
                _ => {},
            }
        }
    }
    assert(iv.take(iv.len() as int) == iv);
    if parts.len() == 0 {
        return None;
    }
    let mut out = crate::text::chars_of(parts[0].as_str());
    let ghost ps = string_views(parts@);
    assert(ps.take(1).len() == 1);
    assert(join_lines(ps.take(1)) == ps[0]);
    for k in 1..parts.len()
        invariant
            ps == string_views(parts@),
            ps.len() >= 1,
            out@ == join_lines(ps.take(k as int)),
    {
        out.push('\n');
        crate::text::extend_str(&mut out, parts[k].as_str());
        assert(ps.take(k + 1).drop_last() == ps.take(k as int));
        assert(ps.take(k + 1).last() == ps[k as int]);
    }
    assert(ps.take(ps.len() as int) == ps);
    Some(crate::text::string_of(&out))
}

/// The message of a failed provider request: `error.message`, or a
/// generic one.
pub open spec fn failure_message(body: JsonTree) -> Seq<char> {
    match field(body, "error"@) {
        Some(e) => match text_field(e, "message"@) {
            Some(m) => m,
            None => "OpenAI request failed."@,
        },
        None => "OpenAI request failed."@,
    }
}

/// What a provider's reply means: an error for an unsuccessful status or
/// a reply without text, else the answer with the model the provider
/// reports (the one asked for where it reports none).
pub fn read_provider_response(status: u16, body: &JsonValue, model: &str) -> (r: Result<AiProviderResponse, AiError>)
    ensures
        !(200 <= status < 300) ==> (r matches Err(e) && e.code@ == "ai_provider_error"@ && e.message@ == "OpenAI returned HTTP "@
            + crate::text::decimal(status as nat) + ": "@ + failure_message(crate::json::tree_of(*body))),
        200 <= status < 300 && response_text(crate::json::tree_of(*body)) is None ==> (r matches Err(e) && e.code@
            == "ai_output_missing"@),
        (200 <= status < 300 && response_text(crate::json::tree_of(*body)) is Some) ==> (r matches Ok(a)
            && a.provider@ == OPENAI_PROVIDER_ID@ && a.output_text@ == response_text(crate::json::tree_of(*body))->0 && a.model@ == (match text_field(
            crate::json::tree_of(*body),
            "model"@,
        ) {
            Some(m) => m,
            None => model@,
        }) && crate::compare::opt_view(a.remote_response_id) == text_field(crate::json::tree_of(*body), "id"@)),
{
    if !(200 <= status && status < 300) {
        let message = match field_of(body, "error") {
            Some(e) => match text_field_of(e, "message") {
                Some(m) => m,
                None => owned("OpenAI request failed."),
            },
            None => owned("OpenAI request failed."),
        };
        let mut text = crate::text::chars_of("OpenAI returned HTTP ");
        crate::text::extend_str(&mut text, crate::text::decimal_string(status as u64).as_str());
        crate::text::extend_str(&mut text, ": ");
        crate::text::extend_str(&mut text, message.as_str());
        let t = crate::text::string_of(&text);
        return Err(AiError::new("ai_provider_error", t.as_str(), true));
    }
    let output_text = match extract_response_text(body) {
        Some(t) => t,
        None => {
            return Err(AiError::new("ai_output_missing", "OpenAI response did not contain output text.", true));
        },
    };
    let reported = match text_field_of(body, "model") {
        Some(m) => m,
        None => owned(model),
    };
    Ok(
        AiProviderResponse {
            provider: owned(OPENAI_PROVIDER_ID),
            model: reported,
            remote_response_id: text_field_of(body, "id"),
            output_text,
        },
    )
}

// ---------------------------------------------------------------------------
// Commands over the stores
// ---------------------------------------------------------------------------

/// A failure of the secret store, as the commands report it.
pub fn secret_error(error: crate::secret::SecretStoreError) -> (e: AppError)
    ensures
        e.code == error.code,
        e.message == error.message,
        e.recoverable,
{
    AppError { code: error.code, message: error.message, recoverable: true }
}

/// Forgetting the stored API key: it is removed from the secure store where
/// there is one, and the settings are read again, with no key configured.
pub fn clear_ai_api_key(
    store: &crate::secret::SecretStore,
    stored_provider: Option<String>,
    stored_model: Option<String>,
    stored_keys: Option<String>,
) -> (r: Result<AiSettingsSnapshot, AppError>)
    ensures
        r matches Ok(s) && {
            &&& s.provider@ == (match stored_provider {
                Some(p) => p@,
                None => OPENAI_PROVIDER_ID@,
            })
            &&& s.model@ == (match stored_model {
                Some(m) => m@,
                None => DEFAULT_OPENAI_MODEL@,
            })
            &&& stored_keys_valid(crate::compare::opt_view(stored_keys), string_views(s.secret_json_keys@))
            &&& !s.api_key_configured
            &&& !s.secure_store_available
        },
{
    let available = store.is_available();
    if available {
        match store.delete(OPENAI_KEY_REF) {
            Ok(()) => {},
            Err(error) => {
                return Err(secret_error(error));
            },
        }
    }
    let key_stored = if available {
        match store.get(OPENAI_KEY_REF) {
            Ok(value) => value.is_some(),
            Err(error) => {
                return Err(secret_error(error));
            },
        }
    } else {
        false
    };
    Ok(ai_settings(stored_provider, stored_model, stored_keys, available, key_stored))
}

/// How many answers a listing asks for: twenty unless another count is
/// given.
pub open spec fn requested_results(limit: Option<usize>) -> usize {
    match limit {
        Some(n) => n,
        None => 20,
    }
}

/// The query for the answers about a source.
pub fn list_ai_results(database: &AiDatabase, source_ref: &str, limit: Option<usize>) -> (st: crate::storage::SqlStatement)
    ensures
        crate::storage::runs(st, crate::records::LIST_AI_RESULTS_SQL, seq![
            crate::storage::text_param(source_ref@),
            crate::storage::SqlParam::Integer(crate::records::ai_page(requested_results(limit))),
        ]),
{
    let n = match limit {
        Some(n) => n,
        None => 20,
    };
    database.list_for_source(source_ref, n)
}

/// A list of strings as a JSON document.
pub open spec fn string_array(items: Seq<Seq<char>>) -> JsonTree {
    JsonTree::Array(items.map_values(|k: Seq<char>| JsonTree::Str(k)))
}

fn string_list_value(items: &Vec<String>) -> (v: JsonValue)
    ensures
        crate::json::tree_of(v) == string_array(string_views(items@)),
{
    let mut values: Vec<JsonValue> = Vec::new();
    let mut i: usize = 0;
    while i < items.len()
        invariant
            i <= items@.len(),
            crate::json::trees_of(values@) == string_views(items@).take(i as int).map_values(|k: Seq<char>| JsonTree::Str(k)),
        decreases items@.len() - i,
    {
        let x = JsonValue::String(copy_string(&items[i]));
        proof {
            crate::json::lemma_trees_of_push(values@, x);
        }
        values.push(x);
        assert(string_views(items@).take(i + 1) == string_views(items@).take(i as int).push(items@[i as int]@));
        assert(crate::json::trees_of(values@) =~= string_views(items@).take(i + 1).map_values(|k: Seq<char>| JsonTree::Str(k)));
        i = i + 1;
    }
    assert(string_views(items@).take(items@.len() as int) == string_views(items@));
    JsonValue::Array(values)
}

/// What saving the assistant's settings does: the preference writes to
/// run, then how the command ends once they ran.
pub struct AiSettingsChange {
    pub writes: Vec<crate::storage::SqlStatement>,
    pub outcome: Result<AiSettingsSnapshot, AppError>,
}

pub open spec fn preference_write(st: crate::storage::SqlStatement, key: Seq<char>, value: Seq<char>) -> bool {
    crate::storage::runs(st, crate::records::SET_PREFERENCE_SQL, seq![crate::storage::text_param(key), crate::storage::text_param(value)])
}

/// Saving new settings, once they are valid: the provider and the trimmed
/// model are stored, then the normalized secret keys as a JSON list (an
/// encoding failure ends the command there); a non-blank API key given
/// with them goes to the secure store, and the command answers with the
/// settings as stored.
pub open spec fn settings_saved(input: AiSettingsInput, keys: Seq<Seq<char>>, c: AiSettingsChange) -> bool {
    let model = trim(input.model@);
    &&& c.writes@.len() >= 2
    &&& preference_write(c.writes@[0], PREF_AI_PROVIDER@, OPENAI_PROVIDER_ID@)
    &&& preference_write(c.writes@[1], PREF_AI_MODEL@, model)
    &&& match crate::json::json_compact(string_array(keys)) {
        Err(message) => c.writes@.len() == 2 && (c.outcome matches Err(e) && e.code@ == "ai_settings_serialize_failed"@
            && e.message@ == message),
        Ok(text) => c.writes@.len() == 3 && preference_write(c.writes@[2], PREF_AI_SECRET_KEYS@, text) && if input.api_key matches Some(k) && trim(k@).len() > 0 {
            c.outcome matches Err(e) && crate::secret::is_unsupported(crate::secret::SecretStoreError { code: e.code, message: e.message })
        } else {
            c.outcome matches Ok(s) && {
                &&& s.provider@ == OPENAI_PROVIDER_ID@
                &&& s.model@ == model
                &&& stored_keys_valid(Some(text), string_views(s.secret_json_keys@))
                &&& !s.api_key_configured
                &&& !s.secure_store_available
            }
        },
    }
}

/// Saving the assistant's settings. Only the OpenAI provider is accepted
/// and a model must be named; nothing is written otherwise.
pub fn set_ai_settings(
    input: &AiSettingsInput,
    database: &crate::storage::Database,
    store: &crate::secret::SecretStore,
) -> (r: Result<AiSettingsChange, AppError>)
    ensures
        trim(input.provider@) != OPENAI_PROVIDER_ID@ ==> (r matches Err(e) && e.code@ == "ai_provider_unsupported"@),
        trim(input.provider@) == OPENAI_PROVIDER_ID@ && trim(input.model@).len() == 0 ==> (r matches Err(e)
            && e.code@ == "ai_model_required"@),
        trim(input.provider@) == OPENAI_PROVIDER_ID@ && trim(input.model@).len() > 0 ==> (r matches Ok(c) && exists|keys: Seq<Seq<char>>|
            is_key_list(string_views(input.secret_json_keys@), keys) && #[trigger] settings_saved(*input, keys, c)),
{
    let (model, keys) = match validate_ai_settings(input) {
        Ok(v) => v,
        Err(e) => {
            return Err(e);
        },
    };
    let ghost key_views = string_views(keys@);
    let mut writes: Vec<crate::storage::SqlStatement> = Vec::new();
    writes.push(database.set_preference(&crate::storage::AppPreference { key: owned(PREF_AI_PROVIDER), value: owned(OPENAI_PROVIDER_ID) }));
    writes.push(database.set_preference(&crate::storage::AppPreference { key: owned(PREF_AI_MODEL), value: copy_string(&model) }));
    let list = string_list_value(&keys);
    let text = match crate::json::compact_json(&list) {
        Ok(text) => text,
        Err(message) => {
            let change = AiSettingsChange {
                writes,
                outcome: Err(AppError { code: owned("ai_settings_serialize_failed"), message, recoverable: true }),
            };
            assert(settings_saved(*input, key_views, change));
            return Ok(change);
        },
    };
    writes.push(database.set_preference(&crate::storage::AppPreference { key: owned(PREF_AI_SECRET_KEYS), value: copy_string(&text) }));
    let given_key = match &input.api_key {
        Some(k) => if crate::text::is_blank(k.as_str()) {
            None
        } else {
            Some(crate::text::trimmed(k.as_str()))
        },
        None => None,
    };
    let outcome = match given_key {
        Some(k) => match store.set(OPENAI_KEY_REF, k.as_str()) {
            Err(error) => Err(secret_error(error)),
            Ok(()) => {
                let available = store.is_available();
                Ok(ai_settings(Some(owned(OPENAI_PROVIDER_ID)), Some(model), Some(text), available, false))
            },
        },
        None => {
            let available = store.is_available();
            let key_stored = if available {
                match store.get(OPENAI_KEY_REF) {
                    Ok(value) => value.is_some(),
                    Err(_) => false,
                }
            } else {
                false
            };
            Ok(ai_settings(Some(owned(OPENAI_PROVIDER_ID)), Some(model), Some(text), available, key_stored))
        },
    };
    let change = AiSettingsChange { writes, outcome };
    assert(settings_saved(*input, key_views, change));
    Ok(change)
}

} // verus!
