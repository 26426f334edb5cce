//! Moving a workspace between machines: the portable bundle, what an export
//! puts in it, and what an import checks before it changes anything.
use vstd::prelude::*;

use crate::model::{
    copy_headers, copy_session, copy_summary, AppError, BodyRef, CaptureSession, FlowDetail, FlowSummary, HeaderValue,
    RequestDetail, ResponseDetail, SessionStatus,
};
use crate::redaction::{detail_redacted, export_redacted, saved_request_redacted};
use crate::text::{copy_string, owned};
use crate::ai::{hex_text, sha256_digest};
use crate::storage::{body_path, BodyStore, StoredBody};
use crate::workspace::{Environment, EnvironmentVariable, SavedCollection, SavedRequest};

verus! {

pub const PORTABLE_BUNDLE_VERSION: u16 = 2;

/// Whether a step of the first-run guide is done, and when.
#[derive(Debug, Clone, PartialEq, Eq)]
pub struct OnboardingStep {
    pub key: String,
    pub completed: bool,
    pub completed_at: Option<String>,
}

#[derive(Debug, Clone, PartialEq, Eq)]
pub struct PortableWorkspaceBundle {
    pub bundle_version: u16,
    pub exported_at: String,
    pub sessions: Vec<PortableSession>,
    pub collections: Vec<SavedCollection>,
    pub saved_requests: Vec<SavedRequest>,
    pub environments: Vec<Environment>,
    pub environment_variables: Vec<EnvironmentVariable>,
}

#[derive(Debug, Clone, PartialEq, Eq)]
pub struct PortableSession {
    pub session: CaptureSession,
    pub flows: Vec<PortableFlow>,
}

#[derive(Debug, Clone, PartialEq, Eq)]
pub struct PortableFlow {
    pub summary: FlowSummary,
    pub detail: Option<FlowDetail>,
    pub request_body_base64: Option<String>,
    pub response_body_base64: Option<String>,
}

#[derive(Debug, Clone, Copy, PartialEq, Eq, Structural)]
pub enum ImportMode {
    Merge,
    Replace,
}

#[derive(Debug, Clone, Copy, PartialEq, Eq, Structural)]
pub struct ImportSummary {
    pub sessions: usize,
    pub flows: usize,
    pub collections: usize,
    pub saved_requests: usize,
    pub environments: usize,
    pub variables: usize,
    pub secret_values_omitted: usize,
}

#[derive(Debug, Clone, PartialEq, Eq)]
pub struct WorkspaceExportResult {
    pub bundle: PortableWorkspaceBundle,
    pub path: String,
}

/// A stored flow as read for an export: its summary, its detail if any,
/// and the bytes of the bodies the detail refers to.
#[derive(Debug, Clone, PartialEq, Eq)]
pub struct ExportFlow {
    pub summary: FlowSummary,
    pub detail: Option<FlowDetail>,
    pub request_body: Option<Vec<u8>>,
    pub response_body: Option<Vec<u8>>,
}

// ---------------------------------------------------------------------------
// Onboarding
// ---------------------------------------------------------------------------

/// Marks a step done (at `now`) or not done.
pub fn set_onboarding_step(key: String, completed: bool, now: String) -> (step: OnboardingStep)
    ensures
        step.key == key,
        step.completed == completed,
        completed ==> step.completed_at == Some(now),
        !completed ==> step.completed_at is None,
{
    OnboardingStep { key, completed, completed_at: if completed { Some(now) } else { None } }
}

/// The stored steps, or the storage failure as an application error.
pub fn list_onboarding_steps(stored: Result<Vec<OnboardingStep>, String>) -> (r: Result<Vec<OnboardingStep>, AppError>)
    ensures
        stored is Ok ==> r == Ok::<Vec<OnboardingStep>, AppError>(stored->Ok_0),
        stored matches Err(message) ==> (r matches Err(e) && e.code@ == "storage_failure"@ && e.message@ == message@
            && e.recoverable),
{
    match stored {
        Ok(steps) => Ok(steps),
        Err(message) => Err(AppError::storage(message.as_str())),
    }
}

// ---------------------------------------------------------------------------
// Bodies in base64
// ---------------------------------------------------------------------------

/// The character of the standard base64 alphabet for a six-bit value.
pub open spec fn base64_char(n: int) -> char {
    if n < 26 {
        (65 + n) as char
    } else if n < 52 {
        (97 + n - 26) as char
    } else if n < 62 {
        (48 + n - 52) as char
    } else if n == 62 {
        '+'
    } else {
        '/'
    }
}

/// Standard base64 with padding, as the standard engine of the `base64`
/// crate writes it: each three bytes become four characters, and a last
/// one or two bytes become four characters ending in `=` padding.
pub open spec fn base64_encoded(bytes: Seq<u8>) -> Seq<char>
    decreases bytes.len(),
{
    if bytes.len() == 0 {
        Seq::empty()
    } else if bytes.len() == 1 {
        let b0 = bytes[0] as int;
        seq![base64_char(b0 / 4), base64_char((b0 % 4) * 16), '=', '=']
    } else if bytes.len() == 2 {
        let b0 = bytes[0] as int;
        let b1 = bytes[1] as int;
        seq![base64_char(b0 / 4), base64_char((b0 % 4) * 16 + b1 / 16), base64_char((b1 % 16) * 4), '=']
    } else {
        let b0 = bytes[0] as int;
        let b1 = bytes[1] as int;
        let b2 = bytes[2] as int;
        seq![
            base64_char(b0 / 4),
            base64_char((b0 % 4) * 16 + b1 / 16),
            base64_char((b1 % 16) * 4 + b2 / 64),
            base64_char(b2 % 64),
        ] + base64_encoded(bytes.skip(3))
    }
}

/// What the standard base64 engine of the `base64` crate reads from a text:
/// the bytes, or the text of the error it reports.
pub uninterp spec fn base64_decoded(text: Seq<u8>) -> Result<Seq<u8>, Seq<char>>;

/// `base64::engine::general_purpose::STANDARD.encode`; the contract claims
/// that the text is standard padded base64 of the bytes, as
/// `base64_encoded` spells it out.
#[verifier::external_body]
pub(crate) fn encode_base64(bytes: &[u8]) -> (r: String)
    ensures
        r@ == base64_encoded(bytes@),
{
    base64::Engine::encode(&base64::engine::general_purpose::STANDARD, bytes)
}

/// `base64::engine::general_purpose::STANDARD.decode`; the contract claims
/// only that the result, or the error's text, is the one the crate gives.
#[verifier::external_body]
pub(crate) fn decode_base64(text: &[u8]) -> (r: Result<Vec<u8>, String>)
    ensures
        match r {
            Ok(b) => base64_decoded(text@) == Ok::<Seq<u8>, Seq<char>>(b@),
            Err(e) => base64_decoded(text@) == Err::<Seq<u8>, Seq<char>>(e@),
        },
{
    match base64::Engine::decode(&base64::engine::general_purpose::STANDARD, text) {
        Ok(bytes) => Ok(bytes),
        Err(error) => Err(error.to_string()),
    }
}

/// The bytes of a body in a bundle: they must be there and be base64.
pub fn decode_bundle_body(reference: &BodyRef, encoded: Option<&str>) -> (r: Result<Vec<u8>, AppError>)
    ensures
        encoded is None ==> (r matches Err(e) && e.code@ == "bundle_body_missing"@ && e.message@ == "Bundle is missing body bytes for "@
            + reference.sha256@ + "."@),
        encoded matches Some(t) ==> match base64_decoded(vstd::utf8::encode_utf8(t@)) {
            Ok(b) => r matches Ok(v) && v@ == b,
            Err(m) => r matches Err(e) && e.code@ == "bundle_body_invalid"@ && e.message@ == "Invalid base64 body: "@ + m,
        },
{
    let text = match encoded {
        Some(t) => t,
        None => {
            let mut message = crate::text::chars_of("Bundle is missing body bytes for ");
            crate::text::extend_str(&mut message, reference.sha256.as_str());
            crate::text::extend_str(&mut message, ".");
            let m = crate::text::string_of(&message);
            return Err(AppError::new("bundle_body_missing", m.as_str(), true));
        },
    };
    match decode_base64(text.as_bytes()) {
        Ok(bytes) => Ok(bytes),
        Err(error) => {
            let mut message = crate::text::chars_of("Invalid base64 body: ");
            crate::text::extend_str(&mut message, error.as_str());
            let m = crate::text::string_of(&message);
            Err(AppError::new("bundle_body_invalid", m.as_str(), true))
        },
    }
}

/// A body of a bundle brought back into the store: the reference that now
/// points at it, the bytes to write, and where the store keeps them.
#[derive(Debug, Clone)]
pub struct RestoredBody {
    pub reference: BodyRef,
    pub bytes: Vec<u8>,
    pub stored: StoredBody,
}

/// Brings back the body that a reference of an imported flow or saved
/// request points at. Without a reference there is nothing to do; otherwise
/// the bytes are read as `decode_bundle_body` reads them, and the reference
/// takes the digest and size under which the store keeps them, its other
/// fields unchanged. Writing the file is the caller's.
pub fn restore_body(store: &BodyStore, reference: Option<&BodyRef>, encoded: Option<&str>) -> (r: Result<Option<RestoredBody>, AppError>)
    ensures
        reference is None ==> r matches Ok(None),
        reference matches Some(rf) ==> {
            &&& encoded is None ==> (r matches Err(e) && e.code@ == "bundle_body_missing"@)
            &&& encoded matches Some(t) ==> match base64_decoded(vstd::utf8::encode_utf8(t@)) {
                Ok(b) => r matches Ok(Some(x)) && x.bytes@ == b && x.stored.sha256@ == hex_text(sha256_digest(b))
                    && x.stored.byte_size == b.len() && x.stored.path@ == body_path(store.location(), x.stored.sha256@)
                    && x.reference.sha256 == x.stored.sha256 && x.reference.byte_size == x.stored.byte_size
                    && x.reference.content_type == rf.content_type && x.reference.encoding == rf.encoding
                    && x.reference.is_binary == rf.is_binary && x.reference.is_truncated == rf.is_truncated,
                Err(m) => r matches Err(e) && e.code@ == "bundle_body_invalid"@ && e.message@ == "Invalid base64 body: "@ + m,
            }
        },
{
    let rf = match reference {
        None => {
            return Ok(None);
        },
        Some(rf) => rf,
    };
    let bytes = match decode_bundle_body(rf, encoded) {
        Ok(b) => b,
        Err(e) => {
            return Err(e);
        },
    };
    let stored = store.put(bytes.as_slice());
    let restored = BodyRef {
        sha256: copy_string(&stored.sha256),
        byte_size: stored.byte_size,
        content_type: crate::text::copy_opt_string(&rf.content_type),
        encoding: crate::text::copy_opt_string(&rf.encoding),
        is_binary: rf.is_binary,
        is_truncated: rf.is_truncated,
    };
    Ok(Some(RestoredBody { reference: restored, bytes, stored }))
}


// ---------------------------------------------------------------------------
// Writing an imported flow
// ---------------------------------------------------------------------------

/// How one flow of an imported session is written.
#[derive(Debug, Clone)]
pub enum FlowWrite {
    /// Its full detail, with the bodies it refers to brought back into the
    /// store (the request's before the response's).
    Detail { detail: FlowDetail, bodies: Vec<RestoredBody> },
    /// Its summary alone, where the bundle has no detail for it.
    Summary(FlowSummary),
}

/// A summary moved under the session `session_id`, otherwise unchanged.
pub open spec fn in_session(old: FlowSummary, new: FlowSummary, session_id: Seq<char>) -> bool {
    &&& new.session_id matches Some(s) && s@ == session_id
    &&& new == (FlowSummary { session_id: new.session_id, ..old })
}

/// A body brought back from the text of its slot: the decoded bytes, where
/// the store keeps them, and the slot's reference pointing there.
pub open spec fn restored_slot(store: BodyStore, slot: (BodyRef, Option<Seq<char>>), b: RestoredBody) -> bool {
    match slot.1 {
        Some(t) => match base64_decoded(vstd::utf8::encode_utf8(t)) {
            Ok(bytes) => {
                &&& b.bytes@ == bytes
                &&& b.stored.sha256@ == hex_text(sha256_digest(bytes))
                &&& b.stored.byte_size == bytes.len()
                &&& b.stored.path@ == body_path(store.location(), b.stored.sha256@)
                &&& b.reference.sha256 == b.stored.sha256
                &&& b.reference.byte_size == b.stored.byte_size
                &&& b.reference == (BodyRef { sha256: b.reference.sha256, byte_size: b.reference.byte_size, ..slot.0 })
            },
            Err(_) => false,
        },
        None => false,
    }
}

/// A body reference after the import: none stays none, and one is replaced
/// by the reference of the body brought back for it.
pub open spec fn body_after(old: Option<BodyRef>, new: Option<BodyRef>, restored: RestoredBody) -> bool {
    match old {
        None => new is None,
        Some(_) => new == Some(restored.reference),
    }
}

/// A detail as it is written: under the session, with its bodies'
/// references replaced by those of the bodies brought back, otherwise
/// unchanged (its header lists the same sequences).
pub open spec fn detail_written(
    old: FlowDetail,
    new: FlowDetail,
    bodies: Seq<RestoredBody>,
    session_id: Seq<char>,
) -> bool {
    &&& in_session(old.summary, new.summary, session_id)
    &&& new.timing == old.timing
    &&& new.error_code == old.error_code
    &&& new.error_message == old.error_message
    &&& match (old.request, new.request) {
        (None, None) => true,
        (Some(o), Some(n)) => n.headers@ == o.headers@ && n == (RequestDetail { body: n.body, headers: n.headers, ..o })
            && body_after(o.body, n.body, bodies[0]),
        _ => false,
    }
    &&& match (old.response, new.response) {
        (None, None) => true,
        (Some(o), Some(n)) => n.headers@ == o.headers@ && n == (ResponseDetail { body: n.body, headers: n.headers, ..o }) && body_after(
            o.body,
            n.body,
            bodies[bodies.len() - 1],
        ),
        _ => false,
    }
}

/// How a flow is written under the session `session_id`: its summary
/// where it has no detail; otherwise its detail as `detail_written`
/// describes, with one body brought back for each of its slots.
pub open spec fn flow_written(flow: PortableFlow, store: BodyStore, session_id: Seq<char>, w: FlowWrite) -> bool {
    match flow.detail {
        None => w matches FlowWrite::Summary(s) && in_session(flow.summary, s, session_id),
        Some(d) => match w {
            FlowWrite::Detail { detail, bodies } => {
                &&& bodies@.len() == body_slots(flow).len()
                &&& forall|k: int| 0 <= k < bodies@.len() ==> restored_slot(store, body_slots(flow)[k], #[trigger] bodies@[k])
                &&& detail_written(d, detail, bodies@, session_id)
            },
            FlowWrite::Summary(_) => false,
        },
    }
}

fn copy_ref(b: &BodyRef) -> (r: BodyRef)
    ensures
        r == *b,
{
    BodyRef {
        sha256: copy_string(&b.sha256),
        byte_size: b.byte_size,
        content_type: crate::text::copy_opt_string(&b.content_type),
        encoding: crate::text::copy_opt_string(&b.encoding),
        is_binary: b.is_binary,
        is_truncated: b.is_truncated,
    }
}

fn opt_text(o: &Option<String>) -> (r: Option<&str>)
    ensures
        match r {
            Some(t) => *o matches Some(s) && t@ == s@,
            None => o is None,
        },
{
    match o {
        Some(t) => Some(t.as_str()),
        None => None,
    }
}

/// How a flow of an imported session is written under the session
/// `session_id`: a flow with its detail has the bodies it refers to brought
/// back into `store`, in order, and is refused as its first body that
/// cannot be brought back is; a flow without one is written as its
/// summary.
pub fn import_flow(flow: &PortableFlow, session_id: &str, store: &BodyStore) -> (r: Result<FlowWrite, AppError>)
    ensures
        r is Ok <==> (forall|k: int| 0 <= k < body_slots(*flow).len() ==> slot_ok(#[trigger] body_slots(*flow)[k])),
        r matches Err(e) ==> first_bad_code(body_slots(*flow)) == Some(e.code@),
        r matches Ok(w) ==> flow_written(*flow, *store, session_id@, w),
{
    let d = match &flow.detail {
        None => {
            let mut summary = copy_summary(&flow.summary);
            summary.session_id = Some(owned(session_id));
            return Ok(FlowWrite::Summary(summary));
        },
        Some(d) => d,
    };
    let ghost slots = body_slots(*flow);
    let mut bodies: Vec<RestoredBody> = Vec::new();
    let request = match &d.request {
        None => None,
        Some(q) => {
            let body = match restore_body(store, q.body.as_ref(), opt_text(&flow.request_body_base64)) {
                Err(e) => {
                    proof {
                        assert(slots[0] == (q.body->0, crate::compare::opt_view(flow.request_body_base64)));
                    }
                    return Err(e);
                },
                Ok(None) => None,
                Ok(Some(rb)) => {
                    let reference = Some(copy_ref(&rb.reference));
                    bodies.push(rb);
                    reference
                },
            };
            Some(
                RequestDetail {
                    method: copy_string(&q.method),
                    url: copy_string(&q.url),
                    scheme: copy_string(&q.scheme),
                    host: copy_string(&q.host),
                    port: q.port,
                    path: copy_string(&q.path),
                    query: crate::text::copy_opt_string(&q.query),
                    headers: copy_headers(&q.headers),
                    body,
                },
            )
        },
    };
    let ghost after_request = bodies@;
    let response = match &d.response {
        None => None,
        Some(p) => {
            let body = match restore_body(store, p.body.as_ref(), opt_text(&flow.response_body_base64)) {
                Err(e) => {
                    proof {
                        assert(slots[slots.len() - 1] == (p.body->0, crate::compare::opt_view(flow.response_body_base64)));
                        if slots.len() == 2 {
                            assert(slot_ok(slots[0]));
                            assert(slots.drop_first().len() == 1);
                            assert(slots.drop_first()[0] == slots[1]);
                            assert(first_bad_code(slots.drop_first()) == Some(slot_code(slots[1])));
                        } else {
                            assert(!slot_ok(slots[0]));
                        }
                    }
                    return Err(e);
                },
                Ok(None) => None,
                Ok(Some(rb)) => {
                    let reference = Some(copy_ref(&rb.reference));
                    bodies.push(rb);
                    reference
                },
            };
            Some(
                ResponseDetail {
                    status_code: p.status_code,
                    reason: crate::text::copy_opt_string(&p.reason),
                    headers: copy_headers(&p.headers),
                    body,
                },
            )
        },
    };
    let mut summary = copy_summary(&d.summary);
    summary.session_id = Some(owned(session_id));
    let detail = FlowDetail {
        summary,
        request,
        response,
        timing: d.timing,
        error_code: crate::text::copy_opt_string(&d.error_code),
        error_message: crate::text::copy_opt_string(&d.error_message),
    };
    let ghost requests = (d.request, detail.request);
    let ghost responses = (d.response, detail.response);
    proof {
        assert(bodies@.len() == slots.len());
        assert(forall|k: int| 0 <= k < bodies@.len() ==> restored_slot(*store, slots[k], #[trigger] bodies@[k]));
        assert(in_session(d.summary, detail.summary, session_id@));
        match requests {
            (Some(o), Some(n)) => {
                assert(n == (RequestDetail { body: n.body, headers: n.headers, ..o }));
                assert(body_after(o.body, n.body, bodies@[0]));
            },
            _ => {},
        }
        match responses {
            (Some(o), Some(n)) => {
                assert(n == (ResponseDetail { body: n.body, headers: n.headers, ..o }));
                assert(body_after(o.body, n.body, bodies@[bodies@.len() - 1]));
            },
            _ => {},
        }
        assert(detail_written(*d, detail, bodies@, session_id@));
    }
    Ok(FlowWrite::Detail { detail, bodies })
}


/// How an imported session is written: the session as `imported_session`
/// keeps it, and each of its flows, in order, under it. It is refused as the
/// first body of its flows that cannot be brought back is.
pub fn import_session(portable: &PortableSession, imported_at: &str, store: &BodyStore) -> (r: Result<(CaptureSession, Vec<FlowWrite>), AppError>)
    ensures
        r is Ok <==> (forall|k: int| 0 <= k < flow_slots(portable.flows@).len() ==> slot_ok(
            #[trigger] flow_slots(portable.flows@)[k],
        )),
        r matches Err(e) ==> first_bad_code(flow_slots(portable.flows@)) == Some(e.code@),
        r matches Ok((session, writes)) ==> {
            &&& session_kept(portable.session, session, imported_at@)
            &&& writes@.len() == portable.flows@.len()
            &&& forall|k: int| 0 <= k < writes@.len() ==> flow_written(
                portable.flows@[k],
                *store,
                session.id@,
                #[trigger] writes@[k],
            )
        },
{
    let session = imported_session(copy_session(&portable.session), imported_at);
    let ghost fs = portable.flows@;
    let mut writes: Vec<FlowWrite> = Vec::new();
    let mut j: usize = 0;
    assert(fs.take(0) =~= Seq::<PortableFlow>::empty());
    while j < portable.flows.len()
        invariant
            fs == portable.flows@,
            j <= fs.len(),
            writes@.len() == j,
            forall|k: int| 0 <= k < j ==> flow_written(fs[k], *store, session.id@, #[trigger] writes@[k]),
            forall|k: int| 0 <= k < flow_slots(fs.take(j as int)).len() ==> slot_ok(
                #[trigger] flow_slots(fs.take(j as int))[k],
            ),
        decreases fs.len() - j,
    {
        assert(fs.take(j + 1).drop_last() =~= fs.take(j as int));
        assert(fs.take(j + 1).last() == fs[j as int]);
        let w = match import_flow(&portable.flows[j], session.id.as_str(), store) {
            Ok(w) => w,
            Err(e) => {
                proof {
                    let fj = flow_slots(fs.take(j as int));
                    let b = body_slots(fs[j as int]);
                    let rest = flow_slots(fs.skip(j + 1));
                    lemma_flow_slots_split(fs, j + 1);
                    assert(flow_slots(fs) =~= fj + (b + rest));
                    lemma_first_bad_none(fj);
                    lemma_first_bad_none(b);
                    lemma_first_bad_concat(b, rest);
                    lemma_first_bad_concat(fj, b + rest);
                    lemma_first_bad_none(flow_slots(fs));
                }
                return Err(e);
            },
        };
        writes.push(w);
        assert forall|k: int| 0 <= k < flow_slots(fs.take(j + 1)).len() implies slot_ok(
            #[trigger] flow_slots(fs.take(j + 1))[k],
        ) by {
            let base = flow_slots(fs.take(j as int));
            assert(flow_slots(fs.take(j + 1)) == base + body_slots(fs[j as int]));
            if k >= base.len() {
                assert(flow_slots(fs.take(j + 1))[k] == body_slots(fs[j as int])[k - base.len()]);
            } else {
                assert(flow_slots(fs.take(j + 1))[k] == base[k]);
            }
        }
        j = j + 1;
    }
    assert(fs.take(fs.len() as int) =~= fs);
    Ok((session, writes))
}

// ---------------------------------------------------------------------------
// Checks before an import
// ---------------------------------------------------------------------------

/// The bundle version this build reads.
pub fn check_bundle_version(bundle: &PortableWorkspaceBundle) -> (r: Result<(), AppError>)
    ensures
        r is Ok <==> bundle.bundle_version == PORTABLE_BUNDLE_VERSION,
        r matches Err(e) ==> e.code@ == "unsupported_bundle_version"@ && e.message@
            == "This build supports workspace bundle version 2, received "@ + crate::text::decimal(
            bundle.bundle_version as nat,
        ) + "."@,
{
    if bundle.bundle_version != PORTABLE_BUNDLE_VERSION {
        let mut message = crate::text::chars_of("This build supports workspace bundle version 2, received ");
        crate::text::extend_str(&mut message, crate::text::decimal_string(bundle.bundle_version as u64).as_str());
        crate::text::extend_str(&mut message, ".");
        let m = crate::text::string_of(&message);
        return Err(AppError::new("unsupported_bundle_version", m.as_str(), true));
    }
    Ok(())
}

/// A body a flow of a bundle refers to, with the text that should hold it.
pub open spec fn body_slots(f: PortableFlow) -> Seq<(BodyRef, Option<Seq<char>>)> {
    match f.detail {
        Some(d) => {
            let req = match d.request {
                Some(q) => match q.body {
                    Some(b) => seq![(b, crate::compare::opt_view(f.request_body_base64))],
                    None => seq![],
                },
                None => seq![],
            };
            let resp = match d.response {
                Some(p) => match p.body {
                    Some(b) => seq![(b, crate::compare::opt_view(f.response_body_base64))],
                    None => seq![],
                },
                None => seq![],
            };
            req + resp
        },
        None => seq![],
    }
}

/// Every body slot of the flows, session by session.
pub open spec fn bundle_slots(sessions: Seq<PortableSession>) -> Seq<(BodyRef, Option<Seq<char>>)>
    decreases sessions.len(),
{
    if sessions.len() == 0 {
        seq![]
    } else {
        bundle_slots(sessions.drop_last()) + flow_slots(sessions.last().flows@)
    }
}

pub open spec fn flow_slots(flows: Seq<PortableFlow>) -> Seq<(BodyRef, Option<Seq<char>>)>
    decreases flows.len(),
{
    if flows.len() == 0 {
        seq![]
    } else {
        flow_slots(flows.drop_last()) + body_slots(flows.last())
    }
}

/// A slot holds a body that can be restored.
pub open spec fn slot_ok(slot: (BodyRef, Option<Seq<char>>)) -> bool {
    slot.1 matches Some(t) && base64_decoded(vstd::utf8::encode_utf8(t)) is Ok
}

/// The refusal a bad slot gives: its text is missing, or it is not base64.
pub open spec fn slot_code(slot: (BodyRef, Option<Seq<char>>)) -> Seq<char> {
    if slot.1 is None {
        "bundle_body_missing"@
    } else {
        "bundle_body_invalid"@
    }
}

/// The refusal of the first slot that cannot be restored, if any.
pub open spec fn first_bad_code(slots: Seq<(BodyRef, Option<Seq<char>>)>) -> Option<Seq<char>>
    decreases slots.len(),
{
    if slots.len() == 0 {
        None
    } else if !slot_ok(slots[0]) {
        Some(slot_code(slots[0]))
    } else {
        first_bad_code(slots.drop_first())
    }
}

proof fn lemma_first_bad_concat(a: Seq<(BodyRef, Option<Seq<char>>)>, b: Seq<(BodyRef, Option<Seq<char>>)>)
    ensures
        first_bad_code(a + b) == (if first_bad_code(a) is Some {
            first_bad_code(a)
        } else {
            first_bad_code(b)
        }),
    decreases a.len(),
{
    if a.len() == 0 {
        assert(a + b =~= b);
    } else {
        assert((a + b).drop_first() =~= a.drop_first() + b);
        assert((a + b)[0] == a[0]);
        lemma_first_bad_concat(a.drop_first(), b);
    }
}

proof fn lemma_first_bad_none(a: Seq<(BodyRef, Option<Seq<char>>)>)
    ensures
        first_bad_code(a) is None <==> (forall|k: int| 0 <= k < a.len() ==> slot_ok(#[trigger] a[k])),
    decreases a.len(),
{
    if a.len() > 0 {
        lemma_first_bad_none(a.drop_first());
        if slot_ok(a[0]) && first_bad_code(a.drop_first()) is None {
            assert forall|k: int| 0 <= k < a.len() implies slot_ok(#[trigger] a[k]) by {
                if k > 0 {
                    assert(a[k] == a.drop_first()[k - 1]);
                }
            }
        }
        if first_bad_code(a.drop_first()) is Some {
            let k = choose|k: int| 0 <= k < a.drop_first().len() && !slot_ok(#[trigger] a.drop_first()[k]);
            assert(a.drop_first()[k] == a[k + 1]);
        }
    }
}

proof fn lemma_flow_slots_split(fs: Seq<PortableFlow>, n: int)
    requires
        0 <= n <= fs.len(),
    ensures
        flow_slots(fs) == flow_slots(fs.take(n)) + flow_slots(fs.skip(n)),
    decreases fs.len(),
{
    if n == fs.len() {
        assert(fs.take(n) =~= fs);
        assert(fs.skip(n) =~= Seq::<PortableFlow>::empty());
        assert(flow_slots(fs) + Seq::<(BodyRef, Option<Seq<char>>)>::empty() =~= flow_slots(fs));
    } else {
        lemma_flow_slots_split(fs.drop_last(), n);
        assert(fs.drop_last().take(n) =~= fs.take(n));
        assert(fs.skip(n).drop_last() =~= fs.drop_last().skip(n));
        assert(fs.skip(n).last() == fs.last());
        assert(flow_slots(fs.skip(n)) == flow_slots(fs.skip(n).drop_last()) + body_slots(fs.skip(n).last()));
        assert(flow_slots(fs) =~= flow_slots(fs.take(n)) + flow_slots(fs.skip(n)));
    }
}

proof fn lemma_bundle_slots_split(ss: Seq<PortableSession>, n: int)
    requires
        0 <= n <= ss.len(),
    ensures
        bundle_slots(ss) == bundle_slots(ss.take(n)) + bundle_slots(ss.skip(n)),
    decreases ss.len(),
{
    if n == ss.len() {
        assert(ss.take(n) =~= ss);
        assert(ss.skip(n) =~= Seq::<PortableSession>::empty());
        assert(bundle_slots(ss) + Seq::<(BodyRef, Option<Seq<char>>)>::empty() =~= bundle_slots(ss));
    } else {
        lemma_bundle_slots_split(ss.drop_last(), n);
        assert(ss.drop_last().take(n) =~= ss.take(n));
        assert(ss.skip(n).drop_last() =~= ss.drop_last().skip(n));
        assert(ss.skip(n).last() == ss.last());
        assert(bundle_slots(ss.skip(n)) == bundle_slots(ss.skip(n).drop_last()) + flow_slots(ss.skip(n).last().flows@));
        assert(bundle_slots(ss) =~= bundle_slots(ss.take(n)) + bundle_slots(ss.skip(n)));
    }
}

/// Where the slots of flow `j` of session `i` are the first with a bad one,
/// they decide the bundle's refusal.
proof fn lemma_first_bad_in_bundle(ss: Seq<PortableSession>, i: int, j: int)
    requires
        0 <= i < ss.len(),
        0 <= j < ss[i].flows@.len(),
        forall|k: int| 0 <= k < bundle_slots(ss.take(i)).len() ==> slot_ok(#[trigger] bundle_slots(ss.take(i))[k]),
        forall|k: int| 0 <= k < flow_slots(ss[i].flows@.take(j)).len() ==> slot_ok(
            #[trigger] flow_slots(ss[i].flows@.take(j))[k],
        ),
        first_bad_code(body_slots(ss[i].flows@[j])) is Some,
    ensures
        first_bad_code(bundle_slots(ss)) == first_bad_code(body_slots(ss[i].flows@[j])),
{
    let fs = ss[i].flows@;
    let done = bundle_slots(ss.take(i));
    let fj = flow_slots(fs.take(j));
    let b = body_slots(fs[j]);
    lemma_bundle_slots_split(ss, i + 1);
    assert(ss.take(i + 1).drop_last() =~= ss.take(i));
    assert(ss.take(i + 1).last() == ss[i]);
    lemma_flow_slots_split(fs, j + 1);
    assert(fs.take(j + 1).drop_last() =~= fs.take(j));
    assert(fs.take(j + 1).last() == fs[j]);
    let fr = flow_slots(fs.skip(j + 1));
    let sr = bundle_slots(ss.skip(i + 1));
    assert(bundle_slots(ss) =~= done + (fj + (b + (fr + sr))));
    lemma_first_bad_none(done);
    lemma_first_bad_none(fj);
    lemma_first_bad_concat(b, fr + sr);
    lemma_first_bad_concat(fj, b + (fr + sr));
    lemma_first_bad_concat(done, fj + (b + (fr + sr)));
}

fn check_slot(reference: &BodyRef, encoded: &Option<String>) -> (r: Result<(), AppError>)
    ensures
        r is Ok <==> slot_ok((*reference, crate::compare::opt_view(*encoded))),
        r matches Err(e) ==> e.code@ == slot_code((*reference, crate::compare::opt_view(*encoded))),
{
    let text: Option<&str> = match encoded {
        Some(t) => Some(t.as_str()),
        None => None,
    };
    match decode_bundle_body(reference, text) {
        Ok(_) => Ok(()),
        Err(e) => Err(e),
    }
}

fn check_flow_bodies(f: &PortableFlow) -> (r: Result<(), AppError>)
    ensures
        r is Ok <==> (forall|k: int| 0 <= k < body_slots(*f).len() ==> slot_ok(#[trigger] body_slots(*f)[k])),
        r matches Err(e) ==> first_bad_code(body_slots(*f)) == Some(e.code@),
{
    match &f.detail {
        Some(d) => {
            let ghost slots = body_slots(*f);
            match &d.request {
                Some(q) => match &q.body {
                    Some(b) => {
                        let c = check_slot(b, &f.request_body_base64);
                        if c.is_err() {
                            assert(slots[0] == (*b, crate::compare::opt_view(f.request_body_base64)));
                            return c;
                        }
                    },
                    None => {},
                },
                None => {},
            }
            match &d.response {
                Some(p) => match &p.body {
                    Some(b) => {
                        let c = check_slot(b, &f.response_body_base64);
                        if c.is_err() {
                            assert(slots[slots.len() - 1] == (*b, crate::compare::opt_view(f.response_body_base64)));
                            proof {
                                if slots.len() == 2 {
                                    assert(slot_ok(slots[0]));
                                    assert(slots.drop_first().len() == 1);
                                    assert(slots.drop_first()[0] == slots[1]);
                                    assert(first_bad_code(slots.drop_first()) == Some(slot_code(slots[1])));
                                } else {
                                    assert(slots.len() == 1);
                                    assert(!slot_ok(slots[0]));
                                }
                            }
                            return c;
                        }
                    },
                    None => {},
                },
                None => {},
            }
            Ok(())
        },
        None => Ok(()),
    }
}

/// Every body a bundle refers to is in it, in base64.
pub fn validate_bundle_bodies(bundle: &PortableWorkspaceBundle) -> (r: Result<(), AppError>)
    ensures
        r is Ok <==> (forall|k: int| 0 <= k < bundle_slots(bundle.sessions@).len() ==> slot_ok(
            #[trigger] bundle_slots(bundle.sessions@)[k],
        )),
        r matches Err(e) ==> first_bad_code(bundle_slots(bundle.sessions@)) == Some(e.code@),
{
    let ghost ss = bundle.sessions@;
    let mut i: usize = 0;
    while i < bundle.sessions.len()
        invariant
            ss == bundle.sessions@,
            i <= ss.len(),
            forall|k: int| 0 <= k < bundle_slots(ss.take(i as int)).len() ==> slot_ok(
                #[trigger] bundle_slots(ss.take(i as int))[k],
            ),
        decreases ss.len() - i,
    {
        let flows = &bundle.sessions[i].flows;
        let ghost done = bundle_slots(ss.take(i as int));
        assert(ss.take(i + 1).drop_last() == ss.take(i as int));
        assert(ss.take(i + 1).last() == ss[i as int]);
        let ghost fs = flows@;
        let mut j: usize = 0;
        while j < flows.len()
            invariant
                fs == flows@,
                fs == ss[i as int].flows@,
                0 <= i < ss.len(),
                ss == bundle.sessions@,
                j <= fs.len(),
                done == bundle_slots(ss.take(i as int)),
                forall|k: int| 0 <= k < done.len() ==> slot_ok(#[trigger] done[k]),
                forall|k: int| 0 <= k < flow_slots(fs.take(j as int)).len() ==> slot_ok(
                    #[trigger] flow_slots(fs.take(j as int))[k],
                ),
            decreases fs.len() - j,
        {
            assert(fs.take(j + 1).drop_last() == fs.take(j as int));
            assert(fs.take(j + 1).last() == fs[j as int]);
            let c = check_flow_bodies(&flows[j]);
            if c.is_err() {
                proof {
                    let bad = choose|k: int| 0 <= k < body_slots(fs[j as int]).len() && !slot_ok(body_slots(fs[j as int])[k]);
                    lemma_slots_of_bundle(ss, i as int, j as int, bad);
                    lemma_first_bad_in_bundle(ss, i as int, j as int);
                }
                return c;
            }
            assert forall|k: int| 0 <= k < flow_slots(fs.take(j + 1)).len() implies slot_ok(
                #[trigger] flow_slots(fs.take(j + 1))[k],
            ) by {
                let base = flow_slots(fs.take(j as int));
                assert(flow_slots(fs.take(j + 1)) == base + body_slots(fs[j as int]));
                if k >= base.len() {
                    assert(flow_slots(fs.take(j + 1))[k] == body_slots(fs[j as int])[k - base.len()]);
                } else {
                    assert(flow_slots(fs.take(j + 1))[k] == base[k]);
                }
            }
            j = j + 1;
        }
        assert(fs.take(fs.len() as int) == fs);
        assert forall|k: int| 0 <= k < bundle_slots(ss.take(i + 1)).len() implies slot_ok(
            #[trigger] bundle_slots(ss.take(i + 1))[k],
        ) by {
            assert(bundle_slots(ss.take(i + 1)) == done + flow_slots(fs));
            if k >= done.len() {
                assert(bundle_slots(ss.take(i + 1))[k] == flow_slots(fs)[k - done.len()]);
            } else {
                assert(bundle_slots(ss.take(i + 1))[k] == done[k]);
            }
        }
        i = i + 1;
    }
    assert(ss.take(ss.len() as int) == ss);
    Ok(())
}

/// A bad slot of flow `j` of session `i` is a bad slot of the bundle.
proof fn lemma_slots_of_bundle(ss: Seq<PortableSession>, i: int, j: int, bad: int)
    requires
        0 <= i < ss.len(),
        0 <= j < ss[i].flows@.len(),
        0 <= bad < body_slots(ss[i].flows@[j]).len(),
        !slot_ok(body_slots(ss[i].flows@[j])[bad]),
    ensures
        exists|k: int| 0 <= k < bundle_slots(ss).len() && !slot_ok(#[trigger] bundle_slots(ss)[k]),
{
    let fs = ss[i].flows@;
    let k1 = lemma_flow_slot_index(fs, j, bad);
    let k2 = lemma_bundle_slot_index(ss, i, k1);
    assert(!slot_ok(bundle_slots(ss)[k2]));
}

proof fn lemma_flow_slot_index(fs: Seq<PortableFlow>, j: int, bad: int) -> (k: int)
    requires
        0 <= j < fs.len(),
        0 <= bad < body_slots(fs[j]).len(),
    ensures
        0 <= k < flow_slots(fs).len(),
        flow_slots(fs)[k] == body_slots(fs[j])[bad],
    decreases fs.len(),
{
    if j == fs.len() - 1 {
        flow_slots(fs.drop_last()).len() + bad
    } else {
        assert(fs.drop_last()[j] == fs[j]);
        let k = lemma_flow_slot_index(fs.drop_last(), j, bad);
        k
    }
}

proof fn lemma_bundle_slot_index(ss: Seq<PortableSession>, i: int, k: int) -> (r: int)
    requires
        0 <= i < ss.len(),
        0 <= k < flow_slots(ss[i].flows@).len(),
    ensures
        0 <= r < bundle_slots(ss).len(),
        bundle_slots(ss)[r] == flow_slots(ss[i].flows@)[k],
    decreases ss.len(),
{
    if i == ss.len() - 1 {
        bundle_slots(ss.drop_last()).len() + k
    } else {
        assert(ss.drop_last()[i] == ss[i]);
        lemma_bundle_slot_index(ss.drop_last(), i, k)
    }
}

pub open spec fn collection_ids(cs: Seq<SavedCollection>) -> Seq<Seq<char>> {
    cs.map_values(|c: SavedCollection| c.id@)
}

pub open spec fn environment_ids(es: Seq<Environment>) -> Seq<Seq<char>> {
    es.map_values(|e: Environment| e.id@)
}

/// The first saved request whose collection is not in the bundle.
pub open spec fn first_orphan_request(b: PortableWorkspaceBundle) -> Option<int> {
    if exists|i: int| 0 <= i < b.saved_requests@.len() && !collection_ids(b.collections@).contains(
        #[trigger] b.saved_requests@[i].collection_id@,
    ) {
        Some(choose|i: int| 0 <= i < b.saved_requests@.len() && !collection_ids(b.collections@).contains(
            #[trigger] b.saved_requests@[i].collection_id@,
        ) && forall|j: int| 0 <= j < i ==> collection_ids(b.collections@).contains(#[trigger] b.saved_requests@[j].collection_id@))
    } else {
        None
    }
}

fn id_listed(ids: &Vec<String>, id: &String) -> (r: bool)
    ensures
        r == crate::order::string_views(ids@).contains(id@),
{
    let ghost v = crate::order::string_views(ids@);
    for i in 0..ids.len()
        invariant
            v == crate::order::string_views(ids@),
            forall|j: int| 0 <= j < i ==> v[j] != id@,
    {
        if crate::text::str_eq(ids[i].as_str(), id.as_str()) {
            assert(v[i as int] == id@);
            return true;
        }
    }
    false
}

/// A bundle that replaces the workspace must be whole: each saved request
/// in one of its collections, each variable in one of its environments.
pub fn validate_replace_references(bundle: &PortableWorkspaceBundle) -> (r: Result<(), AppError>)
    ensures
        r is Ok <==> ((forall|i: int| 0 <= i < bundle.saved_requests@.len() ==> collection_ids(bundle.collections@).contains(
            #[trigger] bundle.saved_requests@[i].collection_id@,
        )) && (forall|i: int| 0 <= i < bundle.environment_variables@.len() ==> environment_ids(
            bundle.environments@,
        ).contains(#[trigger] bundle.environment_variables@[i].environment_id@))),
        r matches Err(e) ==> e.code@ == "bundle_reference_missing"@,
{
    let mut collections: Vec<String> = Vec::new();
    for i in 0..bundle.collections.len()
        invariant
            crate::order::string_views(collections@) == collection_ids(bundle.collections@.take(i as int)),
    {
        let ghost before = crate::order::string_views(collections@);
        collections.push(copy_string(&bundle.collections[i].id));
        assert(crate::order::string_views(collections@) == before.push(bundle.collections@[i as int].id@));
        assert(collection_ids(bundle.collections@.take(i + 1)) == collection_ids(bundle.collections@.take(i as int)).push(
            bundle.collections@[i as int].id@,
        ));
    }
    assert(bundle.collections@.take(bundle.collections@.len() as int) == bundle.collections@);
    for i in 0..bundle.saved_requests.len()
        invariant
            crate::order::string_views(collections@) == collection_ids(bundle.collections@),
            forall|j: int| 0 <= j < i ==> collection_ids(bundle.collections@).contains(#[trigger] bundle.saved_requests@[j].collection_id@),
    {
        let request = &bundle.saved_requests[i];
        if !id_listed(&collections, &request.collection_id) {
            let mut message = crate::text::chars_of("Saved request ");
            crate::text::extend_str(&mut message, request.id.as_str());
            crate::text::extend_str(&mut message, " refers to a collection missing from the bundle.");
            let m = crate::text::string_of(&message);
            return Err(AppError::new("bundle_reference_missing", m.as_str(), true));
        }
    }
    let mut environments: Vec<String> = Vec::new();
    for i in 0..bundle.environments.len()
        invariant
            crate::order::string_views(environments@) == environment_ids(bundle.environments@.take(i as int)),
    {
        let ghost before = crate::order::string_views(environments@);
        environments.push(copy_string(&bundle.environments[i].id));
        assert(crate::order::string_views(environments@) == before.push(bundle.environments@[i as int].id@));
        assert(environment_ids(bundle.environments@.take(i + 1)) == environment_ids(bundle.environments@.take(i as int)).push(
            bundle.environments@[i as int].id@,
        ));
    }
    assert(bundle.environments@.take(bundle.environments@.len() as int) == bundle.environments@);
    for i in 0..bundle.environment_variables.len()
        invariant
            crate::order::string_views(environments@) == environment_ids(bundle.environments@),
            forall|j: int| 0 <= j < bundle.saved_requests@.len() ==> collection_ids(bundle.collections@).contains(
                #[trigger] bundle.saved_requests@[j].collection_id@,
            ),
            forall|j: int| 0 <= j < i ==> environment_ids(bundle.environments@).contains(
                #[trigger] bundle.environment_variables@[j].environment_id@,
            ),
    {
        let variable = &bundle.environment_variables[i];
        if !id_listed(&environments, &variable.environment_id) {
            let mut message = crate::text::chars_of("Environment variable ");
            crate::text::extend_str(&mut message, variable.id.as_str());
            crate::text::extend_str(&mut message, " refers to an environment missing from the bundle.");
            let m = crate::text::string_of(&message);
            return Err(AppError::new("bundle_reference_missing", m.as_str(), true));
        }
    }
    Ok(())
}

/// How an imported session is kept: a session still active in the bundle
/// is stored as interrupted, ended at the import where it had not ended;
/// any other is kept as it is.
pub open spec fn session_kept(session: CaptureSession, r: CaptureSession, imported_at: Seq<char>) -> bool {
    &&& session.status == SessionStatus::Active ==> r == (CaptureSession {
        status: SessionStatus::Interrupted,
        ended_at: match session.ended_at {
            Some(e) => Some(e),
            None => Some(r.ended_at->0),
        },
        ..session
    }) && (session.ended_at is None ==> r.ended_at->0@ == imported_at)
    &&& session.status != SessionStatus::Active ==> r == session
}

/// Keeps an imported session as `session_kept` describes.
pub fn imported_session(session: CaptureSession, imported_at: &str) -> (r: CaptureSession)
    ensures
        session_kept(session, r, imported_at@),
{
    let mut session = session;
    if session.status == SessionStatus::Active {
        session.status = SessionStatus::Interrupted;
        if session.ended_at.is_none() {
            session.ended_at = Some(owned(imported_at));
        }
    }
    session
}

/// A variable as it leaves or enters a bundle: a secret loses its value and
/// its reference to the secure store.
pub open spec fn without_secret(old: EnvironmentVariable, new: EnvironmentVariable) -> bool {
    if old.is_secret {
        new == EnvironmentVariable { value: None, secret_ref: None, ..old }
    } else {
        new == old
    }
}

pub fn omit_secret(variable: EnvironmentVariable) -> (r: EnvironmentVariable)
    ensures
        without_secret(variable, r),
{
    let mut variable = variable;
    if variable.is_secret {
        variable.value = None;
        variable.secret_ref = None;
    }
    variable
}

/// Every body the bundle refers to is in it.
pub open spec fn bodies_ok(b: PortableWorkspaceBundle) -> bool {
    forall|k: int| 0 <= k < bundle_slots(b.sessions@).len() ==> slot_ok(#[trigger] bundle_slots(b.sessions@)[k])
}

/// Each saved request is in a collection of the bundle and each variable in
/// an environment of it.
pub open spec fn references_ok(b: PortableWorkspaceBundle) -> bool {
    &&& forall|i: int| 0 <= i < b.saved_requests@.len() ==> collection_ids(b.collections@).contains(
        #[trigger] b.saved_requests@[i].collection_id@,
    )
    &&& forall|i: int| 0 <= i < b.environment_variables@.len() ==> environment_ids(b.environments@).contains(
        #[trigger] b.environment_variables@[i].environment_id@,
    )
}

/// The flows of all sessions of a bundle.
pub open spec fn flow_total(sessions: Seq<PortableSession>) -> nat
    decreases sessions.len(),
{
    if sessions.len() == 0 {
        0
    } else {
        flow_total(sessions.drop_last()) + sessions.last().flows@.len()
    }
}

/// The secret variables of a bundle, whose values an import leaves out.
pub open spec fn secret_count(vars: Seq<EnvironmentVariable>) -> nat
    decreases vars.len(),
{
    if vars.len() == 0 {
        0
    } else {
        secret_count(vars.drop_last()) + if vars.last().is_secret { 1nat } else { 0nat }
    }
}

/// The code of the reason an import of `b` is refused, if it is.
pub open spec fn import_refusal(b: PortableWorkspaceBundle, mode: ImportMode, capture_active: bool) -> Option<Seq<char>> {
    if b.bundle_version != PORTABLE_BUNDLE_VERSION {
        Some("unsupported_bundle_version"@)
    } else if !bodies_ok(b) {
        None
    } else if mode == ImportMode::Replace && !references_ok(b) {
        Some("bundle_reference_missing"@)
    } else if mode == ImportMode::Replace && capture_active {
        Some("replace_import_capture_active"@)
    } else {
        None
    }
}

proof fn lemma_secret_count_bound(vars: Seq<EnvironmentVariable>)
    ensures
        secret_count(vars) <= vars.len(),
    decreases vars.len(),
{
    if vars.len() > 0 {
        lemma_secret_count_bound(vars.drop_last());
    }
}

/// Decides an import and what it will report: a bundle of another version,
/// one that lacks a body it refers to, and, to replace the workspace, one
/// with a saved request or a variable outside its own collections and
/// environments, or one imported while a capture runs, is refused. An
/// accepted import reports the sessions, flows, collections, saved requests,
/// environments and variables of the bundle, and how many secret values it
/// leaves out. The writes themselves (sessions through `imported_session`,
/// variables through `omit_secret`) are the caller's.
pub fn import_workspace(bundle: &PortableWorkspaceBundle, mode: ImportMode, capture_active: bool) -> (r: Result<ImportSummary, AppError>)
    requires
        flow_total(bundle.sessions@) <= usize::MAX,
    ensures
        r is Ok <==> (bundle.bundle_version == PORTABLE_BUNDLE_VERSION && bodies_ok(*bundle) && (mode
            == ImportMode::Replace ==> references_ok(*bundle) && !capture_active)),
        r matches Err(e) ==> match import_refusal(*bundle, mode, capture_active) {
            Some(code) => e.code@ == code,
            None => !bodies_ok(*bundle) && first_bad_code(bundle_slots(bundle.sessions@)) == Some(e.code@),
        },
        r matches Ok(s) ==> s.sessions == bundle.sessions@.len() && s.flows == flow_total(bundle.sessions@)
            && s.collections == bundle.collections@.len() && s.saved_requests == bundle.saved_requests@.len()
            && s.environments == bundle.environments@.len() && s.variables == bundle.environment_variables@.len()
            && s.secret_values_omitted == secret_count(bundle.environment_variables@),
{
    match check_bundle_version(bundle) {
        Err(e) => {
            return Err(e);
        },
        Ok(()) => {},
    }
    match validate_bundle_bodies(bundle) {
        Err(e) => {
            return Err(e);
        },
        Ok(()) => {},
    }
    if mode == ImportMode::Replace {
        match validate_replace_references(bundle) {
            Err(e) => {
                return Err(e);
            },
            Ok(()) => {},
        }
        if capture_active {
            return Err(
                AppError::new(
                    "replace_import_capture_active",
                    "Disconnect the active capture before replacing workspace data.",
                    true,
                ),
            );
        }
    }
    let mut flows: usize = 0;
    let mut i: usize = 0;
    while i < bundle.sessions.len()
        invariant
            i <= bundle.sessions@.len(),
            flows == flow_total(bundle.sessions@.take(i as int)),
            flow_total(bundle.sessions@) <= usize::MAX,
        decreases bundle.sessions@.len() - i,
    {
        assert(bundle.sessions@.take(i + 1).drop_last() == bundle.sessions@.take(i as int));
        proof {
            lemma_flow_total_prefix(bundle.sessions@, i + 1);
        }
        flows = flows + bundle.sessions[i].flows.len();
        i = i + 1;
    }
    assert(bundle.sessions@.take(i as int) == bundle.sessions@);
    let mut secrets: usize = 0;
    let mut j: usize = 0;
    while j < bundle.environment_variables.len()
        invariant
            j <= bundle.environment_variables@.len(),
            secrets == secret_count(bundle.environment_variables@.take(j as int)),
        decreases bundle.environment_variables@.len() - j,
    {
        assert(bundle.environment_variables@.take(j + 1).drop_last() == bundle.environment_variables@.take(j as int));
        proof {
            lemma_secret_count_bound(bundle.environment_variables@.take(j as int));
        }
        if bundle.environment_variables[j].is_secret {
            secrets = secrets + 1;
        }
        j = j + 1;
    }
    assert(bundle.environment_variables@.take(j as int) == bundle.environment_variables@);
    Ok(ImportSummary {
        sessions: bundle.sessions.len(),
        flows,
        collections: bundle.collections.len(),
        saved_requests: bundle.saved_requests.len(),
        environments: bundle.environments.len(),
        variables: bundle.environment_variables.len(),
        secret_values_omitted: secrets,
    })
}

proof fn lemma_flow_total_prefix(sessions: Seq<PortableSession>, n: int)
    requires
        0 <= n <= sessions.len(),
    ensures
        flow_total(sessions.take(n)) <= flow_total(sessions),
    decreases sessions.len(),
{
    if n < sessions.len() {
        assert(sessions.drop_last().take(n) == sessions.take(n));
        lemma_flow_total_prefix(sessions.drop_last(), n);
    } else {
        assert(sessions.take(n) == sessions);
    }
}

// ---------------------------------------------------------------------------
// Export
// ---------------------------------------------------------------------------

/// The flows of a session, in order.
pub open spec fn flows_of_session(flows: Seq<ExportFlow>, id: Seq<char>) -> Seq<ExportFlow>
    decreases flows.len(),
{
    if flows.len() == 0 {
        seq![]
    } else if flows.last().summary.session_id matches Some(s) && s@ == id {
        flows_of_session(flows.drop_last(), id).push(flows.last())
    } else {
        flows_of_session(flows.drop_last(), id)
    }
}

/// `p` is flow `f` as exported: its summary, its detail with the secret
/// headers redacted, and its bodies in base64 where it has a detail.
pub open spec fn exported_flow(f: ExportFlow, p: PortableFlow) -> bool {
    &&& p.summary == f.summary
    &&& match f.detail {
        Some(d) => {
            &&& p.detail matches Some(n) && detail_redacted(
                d,
                n,
                |o: Seq<HeaderValue>, n: Seq<HeaderValue>| export_redacted(o, n),
            )
            &&& crate::compare::opt_view(p.request_body_base64) == (match f.request_body {
                Some(b) => Some(base64_encoded(b@)),
                None => None,
            })
            &&& crate::compare::opt_view(p.response_body_base64) == (match f.response_body {
                Some(b) => Some(base64_encoded(b@)),
                None => None,
            })
        },
        None => p.detail is None && p.request_body_base64 is None && p.response_body_base64 is None,
    }
}

pub open spec fn exported_session(flows: Seq<ExportFlow>, s: CaptureSession, p: PortableSession) -> bool {
    let mine = flows_of_session(flows, s.id@);
    &&& p.session == s
    &&& p.flows@.len() == mine.len()
    &&& forall|k: int| 0 <= k < mine.len() ==> exported_flow(mine[k], #[trigger] p.flows@[k])
}

fn export_flow(f: &ExportFlow) -> (p: PortableFlow)
    ensures
        exported_flow(*f, p),
{
    match &f.detail {
        Some(d) => {
            let mut detail = crate::model::copy_detail(d);
            let ghost copy = detail;
            crate::redaction::redact_flow_detail(&mut detail);
            proof {
                crate::redaction::lemma_redacted_copy(
                    *d,
                    copy,
                    detail,
                    |o: Seq<HeaderValue>, n: Seq<HeaderValue>| export_redacted(o, n),
                );
            }
            let request_body_base64 = match &f.request_body {
                Some(b) => Some(encode_base64(b.as_slice())),
                None => None,
            };
            let response_body_base64 = match &f.response_body {
                Some(b) => Some(encode_base64(b.as_slice())),
                None => None,
            };
            PortableFlow {
                summary: crate::model::copy_summary(&f.summary),
                detail: Some(detail),
                request_body_base64,
                response_body_base64,
            }
        },
        None => PortableFlow {
            summary: crate::model::copy_summary(&f.summary),
            detail: None,
            request_body_base64: None,
            response_body_base64: None,
        },
    }
}

fn export_session(flows: &Vec<ExportFlow>, session: CaptureSession) -> (p: PortableSession)
    ensures
        exported_session(flows@, session, p),
{
    let ghost all = flows@;
    let mut out: Vec<PortableFlow> = Vec::new();
    for i in 0..flows.len()
        invariant
            all == flows@,
            out@.len() == flows_of_session(all.take(i as int), session.id@).len(),
            forall|k: int| 0 <= k < out@.len() ==> exported_flow(flows_of_session(all.take(i as int), session.id@)[k], #[trigger] out@[k]),
    {
        let f = &flows[i];
        assert(all.take(i + 1).drop_last() == all.take(i as int));
        assert(all.take(i + 1).last() == *f);
        let belongs = match &f.summary.session_id {
            Some(s) => crate::text::str_eq(s.as_str(), session.id.as_str()),
            None => false,
        };
        if belongs {
            let p = export_flow(f);
            out.push(p);
        }
    }
    assert(all.take(all.len() as int) == all);
    PortableSession { session, flows: out }
}

/// The bundle of a workspace: every session with its flows (secret headers
/// redacted, bodies in base64), the collections, the saved requests with
/// secret headers redacted, the environments, and their variables without
/// secret values.
pub fn export_workspace(
    exported_at: String,
    sessions: Vec<CaptureSession>,
    flows: Vec<ExportFlow>,
    collections: Vec<SavedCollection>,
    saved_requests: Vec<SavedRequest>,
    environments: Vec<Environment>,
    environment_variables: Vec<EnvironmentVariable>,
) -> (b: PortableWorkspaceBundle)
    ensures
        b.bundle_version == PORTABLE_BUNDLE_VERSION,
        b.exported_at == exported_at,
        b.sessions@.len() == sessions@.len(),
        forall|i: int| 0 <= i < sessions@.len() ==> exported_session(flows@, sessions@[i], #[trigger] b.sessions@[i]),
        b.collections == collections,
        b.saved_requests@.len() == saved_requests@.len(),
        forall|i: int| 0 <= i < saved_requests@.len() ==> saved_request_redacted(
            saved_requests@[i],
            #[trigger] b.saved_requests@[i],
            |o: Seq<HeaderValue>, n: Seq<HeaderValue>| export_redacted(o, n),
        ),
        b.environments == environments,
        b.environment_variables@.len() == environment_variables@.len(),
        forall|i: int| 0 <= i < environment_variables@.len() ==> without_secret(
            environment_variables@[i],
            #[trigger] b.environment_variables@[i],
        ),
{
    let ghost ss = sessions@;
    let mut rest = sessions;
    let mut portable: Vec<PortableSession> = Vec::new();
    while rest.len() > 0
        invariant
            portable@ .len() + rest@.len() == ss.len(),
            rest@ == ss.skip(portable@.len() as int),
            forall|k: int| 0 <= k < portable@.len() ==> exported_session(flows@, ss[k], #[trigger] portable@[k]),
        decreases rest@.len(),
    {
        let ghost k = portable@.len();
        let s = rest.remove(0);
        assert(s == ss[k as int]);
        assert(rest@ == ss.skip((k + 1) as int));
        portable.push(export_session(&flows, s));
    }
    let ghost rs = saved_requests@;
    let mut requests_rest = saved_requests;
    let mut requests: Vec<SavedRequest> = Vec::new();
    while requests_rest.len() > 0
        invariant
            requests@.len() + requests_rest@.len() == rs.len(),
            requests_rest@ == rs.skip(requests@.len() as int),
            forall|k: int| 0 <= k < requests@.len() ==> saved_request_redacted(
                rs[k],
                #[trigger] requests@[k],
                |o: Seq<HeaderValue>, n: Seq<HeaderValue>| export_redacted(o, n),
            ),
        decreases requests_rest@.len(),
    {
        let ghost k = requests@.len();
        let r = requests_rest.remove(0);
        assert(r == rs[k as int]);
        assert(requests_rest@ == rs.skip((k + 1) as int));
        requests.push(crate::redaction::redact_saved_request(r));
    }
    let ghost vs = environment_variables@;
    let mut vars_rest = environment_variables;
    let mut variables: Vec<EnvironmentVariable> = Vec::new();
    while vars_rest.len() > 0
        invariant
            variables@.len() + vars_rest@.len() == vs.len(),
            vars_rest@ == vs.skip(variables@.len() as int),
            forall|k: int| 0 <= k < variables@.len() ==> without_secret(vs[k], #[trigger] variables@[k]),
        decreases vars_rest@.len(),
    {
        let ghost k = variables@.len();
        let v = vars_rest.remove(0);
        assert(v == vs[k as int]);
        assert(vars_rest@ == vs.skip((k + 1) as int));
        variables.push(omit_secret(v));
    }
    PortableWorkspaceBundle {
        bundle_version: PORTABLE_BUNDLE_VERSION,
        exported_at,
        sessions: portable,
        collections,
        saved_requests: requests,
        environments,
        environment_variables: variables,
    }
}

} // verus!
