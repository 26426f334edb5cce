//! Replaying a captured flow or a saved request: the draft the user edits,
//! the request it resolves to, and how the active environment fills it in.
//!
//! Reading stored bodies and sending the request are the caller's; these
//! functions take what was read and decide the rest.
use vstd::prelude::*;

use crate::devices::opt_view;
use crate::model::{
    AppError, BodyRef, FlowDetail, FlowSource, FlowSummary, HeaderValue, RequestDetail, ResponseDetail, SCHEMA_VERSION, Timing,
};
use crate::portable::{base64_decoded, base64_encoded, decode_base64, encode_base64};
use crate::redaction::{is_secret_header_name, is_sensitive_header};
use crate::replay::content_type_of;
use crate::text::{
    chars_of, copy_opt_string, copy_string, extend_str, has_prefix, owned, seq_lower, string_of, trim, unicode_uppercase,
    utf8_string,
};
use crate::interpolation::{VariableMap, interp, interpolate, ensure_variables_resolved, lookup};
use crate::replay::{collect_keys_from_text, template_keys};
use crate::workspace::{EnvironmentVariable, SavedRequest, SavedRequestBody};

verus! {

/// The prefix of the source id of a draft made from a saved request.
pub const SAVED_SOURCE_PREFIX: &'static str = "saved:";

/// A header of a replay draft. A sensitive header's value is not shown:
/// the draft refers to the captured header by its position instead.
#[derive(Debug, Clone, PartialEq, Eq)]
pub struct ReplayHeaderDraft {
    pub name: String,
    pub value: Option<String>,
    pub sensitive: bool,
    pub use_original: bool,
    pub enabled: bool,
    pub source_index: Option<usize>,
}

/// The body of a replay draft: text, or base64 for binary content.
#[derive(Debug, Clone, PartialEq, Eq)]
pub struct ReplayBodyDraft {
    pub text: Option<String>,
    pub base64: Option<String>,
    pub is_binary: bool,
    pub content_type: Option<String>,
    pub use_original: bool,
    pub source_truncated: bool,
}

/// The request the replay screen edits before sending it.
#[derive(Debug, Clone, PartialEq, Eq)]
pub struct ReplayEditDraft {
    pub source_flow_id: String,
    pub method: String,
    pub url: String,
    pub headers: Vec<ReplayHeaderDraft>,
    pub body: Option<ReplayBodyDraft>,
}

/// A request ready to send.
#[derive(Debug, Clone, PartialEq, Eq)]
pub struct ReplayRequest {
    pub source_flow_id: String,
    pub method: String,
    pub url: String,
    pub headers: Vec<HeaderValue>,
    pub body: Option<Vec<u8>>,
    pub content_type: Option<String>,
    pub body_is_binary: bool,
}

/// Where a draft comes from: a saved request (by its id) or a captured
/// flow (by its id).
pub enum ReplaySource {
    Saved(String),
    Flow(String),
}

pub open spec fn saved_prefix() -> Seq<char> {
    "saved:"@
}

/// The source a draft's source id names.
pub fn replay_source(source_flow_id: &str) -> (r: ReplaySource)
    ensures
        has_prefix(source_flow_id@, saved_prefix()) ==> (r matches ReplaySource::Saved(id) && id@ == source_flow_id@.skip(6)),
        !has_prefix(source_flow_id@, saved_prefix()) ==> (r matches ReplaySource::Flow(id) && id@ == source_flow_id@),
{
    let v = chars_of(source_flow_id);
    let prefix = chars_of(SAVED_SOURCE_PREFIX);
    proof {
        reveal_strlit("saved:");
    }
    if crate::text::starts_with_chars(&v, &prefix) {
        let rest = crate::text::slice_chars(&v, 6, v.len());
        ReplaySource::Saved(string_of(&rest))
    } else {
        ReplaySource::Flow(owned(source_flow_id))
    }
}

/// The draft of a captured header at position `i`.
pub open spec fn header_draft_of(h: HeaderValue, i: int, d: ReplayHeaderDraft) -> bool {
    &&& d.name@ == h.name@
    &&& opt_view(d.value) == (if h.sensitive { None } else { Some(h.value@) })
    &&& d.sensitive == h.sensitive
    &&& d.use_original == h.sensitive
    &&& d.enabled
    &&& d.source_index == Some(i as usize)
}

pub open spec fn header_drafts_of(headers: Seq<HeaderValue>, drafts: Seq<ReplayHeaderDraft>) -> bool {
    &&& drafts.len() == headers.len()
    &&& forall|i: int| 0 <= i < headers.len() ==> header_draft_of(headers[i], i, #[trigger] drafts[i])
}

/// The headers of a draft, one per captured header, all enabled.
pub fn build_header_drafts(headers: &Vec<HeaderValue>) -> (r: Vec<ReplayHeaderDraft>)
    ensures
        header_drafts_of(headers@, r@),
{
    let mut r: Vec<ReplayHeaderDraft> = Vec::new();
    let mut i: usize = 0;
    while i < headers.len()
        invariant
            i <= headers@.len(),
            r@.len() == i,
            forall|j: int| 0 <= j < i ==> header_draft_of(headers@[j], j, #[trigger] r@[j]),
        decreases headers@.len() - i,
    {
        let h = &headers[i];
        let value = if h.sensitive { None } else { Some(copy_string(&h.value)) };
        r.push(ReplayHeaderDraft {
            name: copy_string(&h.name),
            value,
            sensitive: h.sensitive,
            use_original: h.sensitive,
            enabled: true,
            source_index: Some(i),
        });
        i = i + 1;
    }
    r
}

/// The body draft of a captured body whose stored bytes are `bytes`:
/// text where it is text in UTF-8, base64 otherwise; a truncated body
/// cannot be replayed as it was captured.
pub open spec fn body_draft_of(reference: BodyRef, bytes: Seq<u8>, d: ReplayBodyDraft) -> bool {
    &&& if !reference.is_binary && vstd::utf8::valid_utf8(bytes) {
        &&& d.text matches Some(t) && t@ == vstd::utf8::decode_utf8(bytes)
        &&& d.base64 is None
        &&& !d.is_binary
    } else {
        &&& d.text is None
        &&& d.base64 matches Some(b) && b@ == base64_encoded(bytes)
        &&& d.is_binary
    }
    &&& d.content_type == reference.content_type
    &&& d.use_original == !reference.is_truncated
    &&& d.source_truncated == reference.is_truncated
}

pub fn build_body_draft(reference: &BodyRef, bytes: Vec<u8>) -> (d: ReplayBodyDraft)
    ensures
        body_draft_of(*reference, bytes@, d),
{
    let ghost b = bytes@;
    let (text, base64, is_binary) = if reference.is_binary {
        (None, Some(encode_base64(bytes.as_slice())), true)
    } else {
        let copy = bytes.clone();
        assert(copy@ == b);
        match utf8_string(copy) {
            Some(text) => (Some(text), None, false),
            None => (None, Some(encode_base64(bytes.as_slice())), true),
        }
    };
    ReplayBodyDraft {
        text,
        base64,
        is_binary,
        content_type: copy_opt_string(&reference.content_type),
        use_original: !reference.is_truncated,
        source_truncated: reference.is_truncated,
    }
}

/// The body draft of a saved body, which is replayed as saved.
pub open spec fn saved_body_draft_of(body: SavedRequestBody, d: ReplayBodyDraft) -> bool {
    &&& d.text == body.text
    &&& d.base64 == body.base64
    &&& d.is_binary == body.is_binary
    &&& d.content_type == body.content_type
    &&& d.use_original
    &&& !d.source_truncated
}

/// The draft of a saved request (`None` where it is not stored) or of a
/// captured flow (its detail, `None` where none is stored, and the stored
/// bytes of its request body, where it has one).
pub open spec fn draft_of(
    source_flow_id: Seq<char>,
    detail: Option<FlowDetail>,
    stored_body: Option<Seq<u8>>,
    saved: Option<SavedRequest>,
    r: Result<ReplayEditDraft, AppError>,
) -> bool {
    if has_prefix(source_flow_id, saved_prefix()) {
        match saved {
            None => r matches Err(e) && e.code@ == "saved_request_missing"@ && e.message@ == "Saved request was not found."@
                && e.recoverable,
            Some(s) => r matches Ok(d) && {
                &&& d.source_flow_id@ == saved_prefix() + s.id@
                &&& d.method == s.method
                &&& d.url == s.url
                &&& header_drafts_of(s.headers@, d.headers@)
                &&& match s.body {
                    Some(b) => d.body matches Some(db) && saved_body_draft_of(b, db),
                    None => d.body is None,
                }
            },
        }
    } else {
        match detail {
            None => r matches Err(e) && e.code@ == "flow_detail_missing"@
                && e.message@ == "Full request details are required before this flow can be replayed."@ && e.recoverable,
            Some(dt) => match dt.request {
                None => r matches Err(e) && e.code@ == "replay_request_missing"@
                    && e.message@ == "The selected flow does not contain captured request details."@ && e.recoverable,
                Some(req) => r matches Ok(d) && {
                    &&& d.source_flow_id@ == source_flow_id
                    &&& d.method == req.method
                    &&& d.url == req.url
                    &&& header_drafts_of(req.headers@, d.headers@)
                    &&& match req.body {
                        Some(b) => d.body matches Some(db) && body_draft_of(b, stored_body->0, db),
                        None => d.body is None,
                    }
                },
            },
        }
    }
}

/// A flow's request has a body that must be read from the store.
pub open spec fn needs_request_body(detail: Option<FlowDetail>) -> bool {
    detail matches Some(d) && d.request matches Some(req) && req.body is Some
}

/// The draft the replay screen starts from, for a captured flow or (with
/// the `saved:` prefix) a saved request.
pub fn create_replay_draft(
    source_flow_id: &str,
    detail: Option<FlowDetail>,
    stored_body: Option<Vec<u8>>,
    saved: Option<SavedRequest>,
) -> (r: Result<ReplayEditDraft, AppError>)
    requires
        !has_prefix(source_flow_id@, saved_prefix()) && needs_request_body(detail) ==> stored_body is Some,
    ensures
        draft_of(source_flow_id@, detail, opt_bytes(stored_body), saved, r),
{
    match replay_source(source_flow_id) {
        ReplaySource::Saved(_) => {
            let s = match saved {
                Some(s) => s,
                None => {
                    return Err(AppError::new("saved_request_missing", "Saved request was not found.", true));
                },
            };
            let body = match &s.body {
                Some(b) => Some(ReplayBodyDraft {
                    text: copy_opt_string(&b.text),
                    base64: copy_opt_string(&b.base64),
                    is_binary: b.is_binary,
                    content_type: copy_opt_string(&b.content_type),
                    use_original: true,
                    source_truncated: false,
                }),
                None => None,
            };
            let mut id = chars_of(SAVED_SOURCE_PREFIX);
            extend_str(&mut id, s.id.as_str());
            proof {
                reveal_strlit("saved:");
            }
            let headers = build_header_drafts(&s.headers);
            Ok(ReplayEditDraft { source_flow_id: string_of(&id), method: s.method, url: s.url, headers, body })
        },
        ReplaySource::Flow(_) => {
            let dt = match detail {
                Some(d) => d,
                None => {
                    return Err(
                        AppError::new(
                            "flow_detail_missing",
                            "Full request details are required before this flow can be replayed.",
                            true,
                        ),
                    );
                },
            };
            let req = match dt.request {
                Some(req) => req,
                None => {
                    return Err(
                        AppError::new("replay_request_missing", "The selected flow does not contain captured request details.", true),
                    );
                },
            };
            let headers = build_header_drafts(&req.headers);
            let body = match &req.body {
                Some(reference) => match stored_body {
                    Some(bytes) => Some(build_body_draft(reference, bytes)),
                    None => None,
                },
                None => None,
            };
            Ok(ReplayEditDraft { source_flow_id: owned(source_flow_id), method: req.method, url: req.url, headers, body })
        },
    }
}

pub open spec fn opt_bytes(b: Option<Vec<u8>>) -> Option<Seq<u8>> {
    match b {
        Some(v) => Some(v@),
        None => None,
    }
}

// ---------------------------------------------------------------------------
// From the draft to the request
// ---------------------------------------------------------------------------

/// A header as its name, value and sensitivity.
pub open spec fn header_view(h: HeaderValue) -> (Seq<char>, Seq<char>, bool) {
    (h.name@, h.value@, h.sensitive)
}

pub open spec fn headers_view(hs: Seq<HeaderValue>) -> Seq<(Seq<char>, Seq<char>, bool)> {
    hs.map_values(|h: HeaderValue| header_view(h))
}

/// The headers the first `n` header drafts resolve to: the disabled ones
/// are left out, one that uses the captured value takes the value and
/// sensitivity of the captured header it refers to, and an edited one takes
/// its value (empty where it has none) and is sensitive if marked so or if
/// its name is that of a credential header. A draft that refers to no
/// captured header, or to one that is gone, fails with the message given.
pub open spec fn resolved_headers(drafts: Seq<ReplayHeaderDraft>, source: Seq<HeaderValue>, n: nat) -> Result<Seq<(Seq<char>, Seq<char>, bool)>, Seq<char>>
    decreases n,
{
    if n == 0 {
        Ok(seq![])
    } else {
        match resolved_headers(drafts, source, (n - 1) as nat) {
            Err(m) => Err(m),
            Ok(done) => {
                let h = drafts[n - 1];
                if !h.enabled {
                    Ok(done)
                } else if h.use_original {
                    match h.source_index {
                        None => Err("Header '"@ + h.name@ + "' has no stored source value."@),
                        Some(i) => if i < source.len() {
                            Ok(done.push((h.name@, source[i as int].value@, source[i as int].sensitive)))
                        } else {
                            Err("Stored source header '"@ + h.name@ + "' is no longer available."@)
                        },
                    }
                } else {
                    Ok(done.push((
                        h.name@,
                        match h.value {
                            Some(v) => v@,
                            None => seq![],
                        },
                        h.sensitive || is_secret_header_name(seq_lower(h.name@)),
                    )))
                }
            },
        }
    }
}

proof fn lemma_resolution_failure_stays(drafts: Seq<ReplayHeaderDraft>, source: Seq<HeaderValue>, k: nat, n: nat)
    requires
        k <= n,
        resolved_headers(drafts, source, k) is Err,
    ensures
        resolved_headers(drafts, source, n) == resolved_headers(drafts, source, k),
    decreases n - k,
{
    if n > k {
        lemma_resolution_failure_stays(drafts, source, k, (n - 1) as nat);
    }
}

fn header_source_missing(message: Vec<char>) -> (e: AppError)
    ensures
        e.code@ == "replay_header_source_missing"@,
        e.message@ == message@,
        e.recoverable,
{
    AppError::new("replay_header_source_missing", string_of(&message).as_str(), true)
}

/// The headers a draft resolves to.
pub fn resolve_headers(draft: &ReplayEditDraft, source_headers: &Vec<HeaderValue>) -> (r: Result<Vec<HeaderValue>, AppError>)
    ensures
        match resolved_headers(draft.headers@, source_headers@, draft.headers@.len()) {
            Ok(hs) => r matches Ok(v) && headers_view(v@) == hs,
            Err(m) => r matches Err(e) && e.code@ == "replay_header_source_missing"@ && e.message@ == m && e.recoverable,
        },
{
    let mut out: Vec<HeaderValue> = Vec::new();
    assert(headers_view(out@) =~= seq![]);
    let mut i: usize = 0;
    while i < draft.headers.len()
        invariant
            i <= draft.headers@.len(),
            resolved_headers(draft.headers@, source_headers@, i as nat) == Ok::<Seq<(Seq<char>, Seq<char>, bool)>, Seq<char>>(headers_view(out@)),
        decreases draft.headers@.len() - i,
    {
        let h = &draft.headers[i];
        let ghost before = out@;
        if h.enabled {
            if h.use_original {
                let index = match h.source_index {
                    Some(index) => index,
                    None => {
                        let mut m = chars_of("Header '");
                        extend_str(&mut m, h.name.as_str());
                        extend_str(&mut m, "' has no stored source value.");
                        proof {
                            lemma_resolution_failure_stays(draft.headers@, source_headers@, (i + 1) as nat, draft.headers@.len());
                        }
                        return Err(header_source_missing(m));
                    },
                };
                if index >= source_headers.len() {
                    let mut m = chars_of("Stored source header '");
                    extend_str(&mut m, h.name.as_str());
                    extend_str(&mut m, "' is no longer available.");
                    proof {
                        lemma_resolution_failure_stays(draft.headers@, source_headers@, (i + 1) as nat, draft.headers@.len());
                    }
                    return Err(header_source_missing(m));
                }
                let original = &source_headers[index];
                out.push(HeaderValue { name: copy_string(&h.name), value: copy_string(&original.value), sensitive: original.sensitive });
            } else {
                let value = match &h.value {
                    Some(v) => copy_string(v),
                    None => String::new(),
                };
                let sensitive = h.sensitive || is_sensitive_header(h.name.as_str());
                out.push(HeaderValue { name: copy_string(&h.name), value, sensitive });
            }
            assert(headers_view(out@) =~= headers_view(before).push(header_view(out@.last())));
        }
        i = i + 1;
    }
    Ok(out)
}

/// The bytes, binary flag and content type a body comes to: a binary body
/// is base64 that must decode (the failure's text is reported after
/// `prefix`), a text body is its UTF-8 bytes (none where it has no text).
pub open spec fn body_bytes_of(
    text: Option<String>,
    base64: Option<String>,
    is_binary: bool,
    content_type: Option<String>,
) -> Result<(Option<Seq<u8>>, bool, Option<String>), Seq<char>> {
    if is_binary {
        let encoded = match base64 {
            Some(b) => b@,
            None => seq![],
        };
        match base64_decoded(vstd::utf8::encode_utf8(encoded)) {
            Ok(bytes) => Ok((Some(bytes), true, content_type)),
            Err(message) => Err(message),
        }
    } else {
        Ok((Some(vstd::utf8::encode_utf8(match text {
            Some(t) => t@,
            None => seq![],
        })), false, content_type))
    }
}

pub open spec fn body_result_view(r: (Option<Vec<u8>>, bool, Option<String>)) -> (Option<Seq<u8>>, bool, Option<String>) {
    (opt_bytes(r.0), r.1, r.2)
}

fn body_bytes(
    text: &Option<String>,
    base64: &Option<String>,
    is_binary: bool,
    content_type: &Option<String>,
) -> (r: Result<(Option<Vec<u8>>, bool, Option<String>), String>)
    ensures
        match body_bytes_of(*text, *base64, is_binary, *content_type) {
            Ok(v) => r matches Ok(x) && body_result_view(x) == v,
            Err(m) => r matches Err(e) && e@ == m,
        },
{
    if is_binary {
        let encoded = match base64 {
            Some(b) => copy_string(b),
            None => String::new(),
        };
        match decode_base64(encoded.as_str().as_bytes()) {
            Ok(bytes) => Ok((Some(bytes), true, copy_opt_string(content_type))),
            Err(message) => Err(message),
        }
    } else {
        let t = match text {
            Some(t) => copy_string(t),
            None => String::new(),
        };
        let bytes = vstd::slice::slice_to_vec(t.as_str().as_bytes());
        Ok((Some(bytes), false, copy_opt_string(content_type)))
    }
}

/// The body of an edited draft.
pub fn body_from_draft(body: &ReplayBodyDraft) -> (r: Result<(Option<Vec<u8>>, bool, Option<String>), AppError>)
    ensures
        match body_bytes_of(body.text, body.base64, body.is_binary, body.content_type) {
            Ok(v) => r matches Ok(x) && body_result_view(x) == v,
            Err(m) => r matches Err(e) && e.code@ == "replay_body_invalid_base64"@
                && e.message@ == "Binary replay body is not valid base64: "@ + m && e.recoverable,
        },
{
    match body_bytes(&body.text, &body.base64, body.is_binary, &body.content_type) {
        Ok(v) => Ok(v),
        Err(message) => {
            let mut m = chars_of("Binary replay body is not valid base64: ");
            extend_str(&mut m, message.as_str());
            Err(AppError::new("replay_body_invalid_base64", string_of(&m).as_str(), true))
        },
    }
}

/// The body of a saved request, replayed as saved.
pub fn saved_body_bytes(body: &SavedRequestBody) -> (r: Result<(Option<Vec<u8>>, bool, Option<String>), AppError>)
    ensures
        match body_bytes_of(body.text, body.base64, body.is_binary, body.content_type) {
            Ok(v) => r matches Ok(x) && body_result_view(x) == v,
            Err(m) => r matches Err(e) && e.code@ == "saved_request_body_invalid"@
                && e.message@ == "Saved binary body is not valid base64: "@ + m && e.recoverable,
        },
{
    match body_bytes(&body.text, &body.base64, body.is_binary, &body.content_type) {
        Ok(v) => Ok(v),
        Err(message) => {
            let mut m = chars_of("Saved binary body is not valid base64: ");
            extend_str(&mut m, message.as_str());
            Err(AppError::new("saved_request_body_invalid", string_of(&m).as_str(), true))
        },
    }
}

/// The request a draft comes to, given its resolved headers and body: the
/// method trimmed and in upper case, the URL trimmed, and the content type
/// of the first `Content-Type` header, or the body's.
pub open spec fn request_of(
    draft: ReplayEditDraft,
    headers: Seq<HeaderValue>,
    body: Option<Seq<u8>>,
    body_is_binary: bool,
    body_content_type: Option<String>,
    r: ReplayRequest,
) -> bool {
    &&& r.source_flow_id == draft.source_flow_id
    &&& r.method@ == unicode_uppercase(trim(draft.method@))
    &&& r.url@ == trim(draft.url@)
    &&& r.headers@ == headers
    &&& opt_bytes(r.body) == body
    &&& opt_view(r.content_type) == match content_type_of(headers) {
        Some(c) => Some(c),
        None => opt_view(body_content_type),
    }
    &&& r.body_is_binary == body_is_binary
}

pub fn build_replay_request(
    draft: &ReplayEditDraft,
    headers: Vec<HeaderValue>,
    body: Option<Vec<u8>>,
    body_is_binary: bool,
    body_content_type: Option<String>,
) -> (r: ReplayRequest)
    ensures
        request_of(*draft, headers@, opt_bytes(body), body_is_binary, body_content_type, r),
{
    let content_type = match crate::replay::content_type(&headers) {
        Some(c) => Some(c),
        None => body_content_type,
    };
    let method = crate::text::trimmed(draft.method.as_str());
    ReplayRequest {
        source_flow_id: copy_string(&draft.source_flow_id),
        method: crate::text::uppercase(method.as_str()),
        url: crate::text::trimmed(draft.url.as_str()),
        headers,
        body,
        content_type,
        body_is_binary,
    }
}

/// The request a draft of a captured flow resolves to, given the flow's
/// captured request and the stored bytes of its body: the headers resolve
/// first; a body kept as captured must not have been truncated and must
/// still be stored; an edited body is taken as edited.
pub open spec fn flow_request_of(
    draft: ReplayEditDraft,
    source: RequestDetail,
    stored_body: Option<Seq<u8>>,
    r: Result<ReplayRequest, AppError>,
) -> bool {
    match resolved_headers(draft.headers@, source.headers@, draft.headers@.len()) {
        Err(m) => r matches Err(e) && e.code@ == "replay_header_source_missing"@ && e.message@ == m,
        Ok(hs) => match draft.body {
            None => r matches Ok(q) && headers_view(q.headers@) == hs && request_of(draft, q.headers@, None, false, None, q),
            Some(b) => if b.use_original {
                if b.source_truncated {
                    r matches Err(e) && e.code@ == "replay_body_truncated"@
                        && e.message@ == "The captured request body was truncated. Replace or edit the body before replaying it."@
                } else {
                    match source.body {
                        None => r matches Err(e) && e.code@ == "replay_body_source_missing"@
                            && e.message@ == "The original request body is no longer available."@,
                        Some(reference) => r matches Ok(q) && headers_view(q.headers@) == hs
                            && request_of(draft, q.headers@, stored_body, reference.is_binary, reference.content_type, q),
                    }
                }
            } else {
                match body_bytes_of(b.text, b.base64, b.is_binary, b.content_type) {
                    Err(m) => r matches Err(e) && e.code@ == "replay_body_invalid_base64"@
                        && e.message@ == "Binary replay body is not valid base64: "@ + m,
                    Ok((bytes, binary, content_type)) => r matches Ok(q) && headers_view(q.headers@) == hs
                        && request_of(draft, q.headers@, bytes, binary, content_type, q),
                }
            },
        },
    }
}

/// The draft keeps the captured body, which must be read from the store.
pub open spec fn uses_stored_body(draft: ReplayEditDraft, source: RequestDetail) -> bool {
    draft.body matches Some(b) && b.use_original && !b.source_truncated && source.body is Some
}

pub fn resolve_flow_request(draft: &ReplayEditDraft, source: &RequestDetail, stored_body: Option<Vec<u8>>) -> (r: Result<ReplayRequest, AppError>)
    requires
        uses_stored_body(*draft, *source) ==> stored_body is Some,
    ensures
        flow_request_of(*draft, *source, opt_bytes(stored_body), r),
{
    let headers = match resolve_headers(draft, &source.headers) {
        Ok(h) => h,
        Err(e) => {
            return Err(e);
        },
    };
    let (body, binary, content_type) = match &draft.body {
        None => (None, false, None),
        Some(b) => if b.use_original {
            if b.source_truncated {
                return Err(
                    AppError::new(
                        "replay_body_truncated",
                        "The captured request body was truncated. Replace or edit the body before replaying it.",
                        true,
                    ),
                );
            }
            match &source.body {
                None => {
                    return Err(
                        AppError::new("replay_body_source_missing", "The original request body is no longer available.", true),
                    );
                },
                Some(reference) => (stored_body, reference.is_binary, copy_opt_string(&reference.content_type)),
            }
        } else {
            match body_from_draft(b) {
                Ok(v) => v,
                Err(e) => {
                    return Err(e);
                },
            }
        },
    };
    Ok(build_replay_request(draft, headers, body, binary, content_type))
}

/// The request a draft of a saved request resolves to: the headers resolve
/// first; a body kept as saved is the saved one, or none.
pub open spec fn saved_request_of(draft: ReplayEditDraft, saved: SavedRequest, r: Result<ReplayRequest, AppError>) -> bool {
    match resolved_headers(draft.headers@, saved.headers@, draft.headers@.len()) {
        Err(m) => r matches Err(e) && e.code@ == "replay_header_source_missing"@ && e.message@ == m,
        Ok(hs) => match draft.body {
            None => r matches Ok(q) && headers_view(q.headers@) == hs && request_of(draft, q.headers@, None, false, None, q),
            Some(b) => if b.use_original {
                match saved.body {
                    None => r matches Ok(q) && headers_view(q.headers@) == hs && request_of(draft, q.headers@, None, false, None, q),
                    Some(sb) => match body_bytes_of(sb.text, sb.base64, sb.is_binary, sb.content_type) {
                        Err(m) => r matches Err(e) && e.code@ == "saved_request_body_invalid"@
                            && e.message@ == "Saved binary body is not valid base64: "@ + m,
                        Ok((bytes, binary, content_type)) => r matches Ok(q) && headers_view(q.headers@) == hs
                            && request_of(draft, q.headers@, bytes, binary, content_type, q),
                    },
                }
            } else {
                match body_bytes_of(b.text, b.base64, b.is_binary, b.content_type) {
                    Err(m) => r matches Err(e) && e.code@ == "replay_body_invalid_base64"@
                        && e.message@ == "Binary replay body is not valid base64: "@ + m,
                    Ok((bytes, binary, content_type)) => r matches Ok(q) && headers_view(q.headers@) == hs
                        && request_of(draft, q.headers@, bytes, binary, content_type, q),
                }
            },
        },
    }
}

pub fn resolve_saved_request(draft: &ReplayEditDraft, saved: &SavedRequest) -> (r: Result<ReplayRequest, AppError>)
    ensures
        saved_request_of(*draft, *saved, r),
{
    let headers = match resolve_headers(draft, &saved.headers) {
        Ok(h) => h,
        Err(e) => {
            return Err(e);
        },
    };
    let (body, binary, content_type) = match &draft.body {
        None => (None, false, None),
        Some(b) => if b.use_original {
            match &saved.body {
                None => (None, false, None),
                Some(sb) => match saved_body_bytes(sb) {
                    Ok(v) => v,
                    Err(e) => {
                        return Err(e);
                    },
                },
            }
        } else {
            match body_from_draft(b) {
                Ok(v) => v,
                Err(e) => {
                    return Err(e);
                },
            }
        },
    };
    Ok(build_replay_request(draft, headers, body, binary, content_type))
}

// ---------------------------------------------------------------------------
// Filling the request from the active environment
// ---------------------------------------------------------------------------

/// The text of a request's body where it is a text body in UTF-8.
pub open spec fn body_text_of(t: ReplayRequest) -> Option<Seq<char>> {
    match t.body {
        Some(b) => if !t.body_is_binary && vstd::utf8::valid_utf8(b@) {
            Some(vstd::utf8::decode_utf8(b@))
        } else {
            None
        },
        None => None,
    }
}

/// The keys the first `n` headers' values refer to.
pub open spec fn header_keys(headers: Seq<HeaderValue>, n: nat) -> Seq<Seq<char>>
    decreases n,
{
    if n == 0 {
        seq![]
    } else {
        header_keys(headers, (n - 1) as nat) + template_keys(headers[n - 1].value@)
    }
}

/// The keys a request refers to: in its URL, its headers' values and its
/// text body.
pub open spec fn request_keys(t: ReplayRequest) -> Seq<Seq<char>> {
    template_keys(t.url@) + header_keys(t.headers@, t.headers@.len()) + match body_text_of(t) {
        Some(x) => template_keys(x),
        None => seq![],
    }
}

pub open spec fn string_seq(v: Seq<String>) -> Seq<Seq<char>> {
    v.map_values(|k: String| k@)
}

/// The keys of the placeholders of a request.
pub fn collect_template_keys(request: &ReplayRequest) -> (r: Vec<String>)
    ensures
        string_seq(r@) == request_keys(*request),
{
    let mut keys = collect_keys_from_text(request.url.as_str());
    let mut i: usize = 0;
    while i < request.headers.len()
        invariant
            i <= request.headers@.len(),
            string_seq(keys@) == template_keys(request.url@) + header_keys(request.headers@, i as nat),
        decreases request.headers@.len() - i,
    {
        let more = collect_keys_from_text(request.headers[i].value.as_str());
        let ghost before = keys@;
        let mut j: usize = 0;
        while j < more.len()
            invariant
                j <= more@.len(),
                string_seq(keys@) == string_seq(before) + string_seq(more@).take(j as int),
            decreases more@.len() - j,
        {
            let ghost k0 = keys@;
            keys.push(copy_string(&more[j]));
            assert(string_seq(keys@) =~= string_seq(k0).push(more@[j as int]@));
            assert(string_seq(more@).take(j + 1) =~= string_seq(more@).take(j as int).push(more@[j as int]@));
            assert(string_seq(keys@) =~= string_seq(before) + string_seq(more@).take(j + 1));
            j = j + 1;
        }
        assert(string_seq(more@).take(more@.len() as int) == string_seq(more@));
        assert(string_seq(keys@) =~= template_keys(request.url@) + header_keys(request.headers@, (i + 1) as nat));
        i = i + 1;
    }
    if !request.body_is_binary {
        match &request.body {
            Some(b) => match utf8_string(b.clone()) {
                Some(text) => {
                    let more = collect_keys_from_text(text.as_str());
                    let ghost before = keys@;
                    let mut j: usize = 0;
                    while j < more.len()
                        invariant
                            j <= more@.len(),
                            string_seq(keys@) == string_seq(before) + string_seq(more@).take(j as int),
                        decreases more@.len() - j,
                    {
                        let ghost k0 = keys@;
                        keys.push(copy_string(&more[j]));
                        assert(string_seq(keys@) =~= string_seq(k0).push(more@[j as int]@));
                        assert(string_seq(more@).take(j + 1) =~= string_seq(more@).take(j as int).push(more@[j as int]@));
                        assert(string_seq(keys@) =~= string_seq(before) + string_seq(more@).take(j + 1));
                        j = j + 1;
                    }
                    assert(string_seq(more@).take(more@.len() as int) == string_seq(more@));
                    assert(string_seq(keys@) =~= request_keys(*request));
                    return keys;
                },
                None => {},
            },
            None => {},
        }
    }
    assert(string_seq(keys@) =~= request_keys(*request));
    keys
}

/// The values the active environment gives the requested keys: its
/// enabled variables with those keys, a later one winning; a secret one
/// without a reference is skipped, and one with a reference needs the
/// secure store, which this build does not have.
pub open spec fn replay_values(vars: Seq<EnvironmentVariable>, requested: Seq<Seq<char>>, n: nat) -> Result<Seq<(Seq<char>, Seq<char>, bool)>, (Seq<char>, Seq<char>)>
    decreases n,
{
    if n == 0 {
        Ok(seq![])
    } else {
        match replay_values(vars, requested, (n - 1) as nat) {
            Err(e) => Err(e),
            Ok(done) => {
                let v = vars[n - 1];
                if !(v.enabled && requested.contains(v.key@)) {
                    Ok(done)
                } else if v.is_secret {
                    match v.secret_ref {
                        None => Ok(done),
                        Some(_) => Err(("secure_store_unsupported"@, crate::secret::unsupported_message())),
                    }
                } else {
                    Ok(done.push((v.key@, match v.value {
                        Some(x) => x@,
                        None => seq![],
                    }, false)))
                }
            },
        }
    }
}

proof fn lemma_replay_values_failure_stays(vars: Seq<EnvironmentVariable>, requested: Seq<Seq<char>>, k: nat, n: nat)
    requires
        k <= n,
        replay_values(vars, requested, k) is Err,
    ensures
        replay_values(vars, requested, n) == replay_values(vars, requested, k),
    decreases n - k,
{
    if n > k {
        lemma_replay_values_failure_stays(vars, requested, k, (n - 1) as nat);
    }
}

fn requested_key(requested: &Vec<String>, key: &str) -> (r: bool)
    ensures
        r == string_seq(requested@).contains(key@),
{
    let mut i: usize = 0;
    while i < requested.len()
        invariant
            i <= requested@.len(),
            forall|j: int| 0 <= j < i ==> (#[trigger] requested@[j])@ != key@,
        decreases requested@.len() - i,
    {
        if crate::text::str_eq(requested[i].as_str(), key) {
            assert(string_seq(requested@)[i as int] == key@);
            return true;
        }
        i = i + 1;
    }
    assert forall|j: int| 0 <= j < string_seq(requested@).len() implies string_seq(requested@)[j] != key@ by {
        assert(string_seq(requested@)[j] == requested@[j]@);
    }
    false
}

/// The values of the active environment's variables (`variables`) for the
/// keys a request refers to.
pub fn replay_environment_values(variables: &Vec<EnvironmentVariable>, requested: &Vec<String>) -> (r: Result<VariableMap, AppError>)
    ensures
        match replay_values(variables@, string_seq(requested@), variables@.len()) {
            Ok(entries) => r matches Ok(m) && forall|k: Seq<char>| lookup(m@, k) == lookup(entries, k),
            Err((code, message)) => r matches Err(e) && e.code@ == code && e.message@ == message && e.recoverable,
        },
{
    let store = crate::secret::SecretStore;
    let mut values = VariableMap::new();
    let ghost mut done: Seq<(Seq<char>, Seq<char>, bool)> = seq![];
    let mut i: usize = 0;
    while i < variables.len()
        invariant
            i <= variables@.len(),
            replay_values(variables@, string_seq(requested@), i as nat) == Ok::<Seq<(Seq<char>, Seq<char>, bool)>, (Seq<char>, Seq<char>)>(done),
            forall|k: Seq<char>| lookup(values@, k) == lookup(done, k),
        decreases variables@.len() - i,
    {
        let v = &variables[i];
        if v.enabled && requested_key(requested, v.key.as_str()) {
            if v.is_secret {
                match &v.secret_ref {
                    None => {},
                    Some(reference) => match store.get(reference.as_str()) {
                        Err(error) => {
                            proof {
                                lemma_replay_values_failure_stays(variables@, string_seq(requested@), (i + 1) as nat, variables@.len());
                            }
                            return Err(AppError::new(error.code.as_str(), error.message.as_str(), true));
                        },
                        Ok(_) => {
                            assert(false);
                        },
                    },
                }
            } else {
                let value = match &v.value {
                    Some(x) => copy_string(x),
                    None => String::new(),
                };
                let ghost entry = (v.key@, value@, false);
                proof {
                    assert forall|k: Seq<char>| lookup(done.push(entry), k) == (if k == entry.0 {
                        Some((entry.1, entry.2))
                    } else {
                        lookup(done, k)
                    }) by {
                        assert(done.push(entry).drop_last() == done);
                    }
                }
                values.insert(copy_string(&v.key), value, false);
                proof {
                    done = done.push(entry);
                }
            }
        }
        i = i + 1;
    }
    Ok(values)
}

/// Two requests are the same, field for field.
pub open spec fn same_request(a: ReplayRequest, b: ReplayRequest) -> bool {
    &&& a.source_flow_id@ == b.source_flow_id@
    &&& a.method@ == b.method@
    &&& a.url@ == b.url@
    &&& a.headers@ == b.headers@
    &&& opt_bytes(a.body) == opt_bytes(b.body)
    &&& opt_view(a.content_type) == opt_view(b.content_type)
    &&& a.body_is_binary == b.body_is_binary
}

/// Every placeholder of the request has a value: in its URL, in each
/// header's value and in its text body.
pub open spec fn all_resolved(t: ReplayRequest, vals: Seq<(Seq<char>, Seq<char>, bool)>) -> bool {
    &&& interp(t.url@, vals).2.len() == 0
    &&& forall|i: int| 0 <= i < t.headers@.len() ==> interp((#[trigger] t.headers@[i]).value@, vals).2.len() == 0
    &&& match body_text_of(t) {
        Some(x) => interp(x, vals).2.len() == 0,
        None => true,
    }
}

/// A header as it is sent: its value filled in.
pub open spec fn executed_header(h: HeaderValue, vals: Seq<(Seq<char>, Seq<char>, bool)>) -> (Seq<char>, Seq<char>, bool) {
    (h.name@, interp(h.value@, vals).0, h.sensitive)
}

/// A header as it is recorded: a value filled with a secret is not
/// recorded (the header keeps its placeholder and is marked sensitive).
pub open spec fn persisted_header(h: HeaderValue, vals: Seq<(Seq<char>, Seq<char>, bool)>) -> (Seq<char>, Seq<char>, bool) {
    if interp(h.value@, vals).1 {
        (h.name@, h.value@, true)
    } else {
        (h.name@, interp(h.value@, vals).0, h.sensitive)
    }
}

/// The request as it is sent (`x`) and as it is recorded (`p`): every
/// placeholder filled in where it is sent; where it is recorded, a URL or a
/// body filled with a secret keeps its placeholders.
pub open spec fn filled_requests(t: ReplayRequest, vals: Seq<(Seq<char>, Seq<char>, bool)>, x: ReplayRequest, p: ReplayRequest) -> bool {
    let u = interp(t.url@, vals);
    &&& x.source_flow_id@ == t.source_flow_id@ && p.source_flow_id@ == t.source_flow_id@
    &&& x.method@ == t.method@ && p.method@ == t.method@
    &&& x.url@ == u.0
    &&& p.url@ == (if u.1 { t.url@ } else { u.0 })
    &&& headers_view(x.headers@) == t.headers@.map_values(|h: HeaderValue| executed_header(h, vals))
    &&& headers_view(p.headers@) == t.headers@.map_values(|h: HeaderValue| persisted_header(h, vals))
    &&& match body_text_of(t) {
        Some(text) => {
            let b = interp(text, vals);
            &&& opt_bytes(x.body) == Some(vstd::utf8::encode_utf8(b.0))
            &&& opt_bytes(p.body) == (if b.1 { opt_bytes(t.body) } else { Some(vstd::utf8::encode_utf8(b.0)) })
        },
        None => opt_bytes(x.body) == opt_bytes(t.body) && opt_bytes(p.body) == opt_bytes(t.body),
    }
    &&& opt_view(x.content_type) == opt_view(t.content_type) && opt_view(p.content_type) == opt_view(t.content_type)
    &&& x.body_is_binary == t.body_is_binary && p.body_is_binary == t.body_is_binary
}

proof fn lemma_same_set_same_emptiness(a: Seq<Seq<char>>, b: Seq<Seq<char>>)
    requires
        a.to_set() == b.to_set(),
    ensures
        a.len() == 0 <==> b.len() == 0,
{
    if a.len() > 0 {
        assert(a.to_set().contains(a[0]));
        assert(b.contains(a[0]));
    }
    if b.len() > 0 {
        assert(b.to_set().contains(b[0]));
        assert(a.contains(b[0]));
    }
}

/// Fills a text, or fails where a placeholder has no value.
fn fill_text(text: &str, values: &VariableMap) -> (r: Result<crate::interpolation::InterpolationResult, AppError>)
    ensures
        interp(text@, values@).2.len() == 0 ==> (r matches Ok(x) && x.value@ == interp(text@, values@).0
            && x.used_secret == interp(text@, values@).1),
        interp(text@, values@).2.len() > 0 ==> (r matches Err(e) && e.code@ == "environment_variables_missing"@ && e.recoverable),
{
    let result = interpolate(text, values);
    proof {
        lemma_same_set_same_emptiness(crate::order::string_views(result.missing_variables@), interp(text@, values@).2);
    }
    match ensure_variables_resolved(&result.missing_variables) {
        Ok(()) => Ok(result),
        Err(e) => Err(e),
    }
}

fn copy_body(b: &Option<Vec<u8>>) -> (r: Option<Vec<u8>>)
    ensures
        opt_bytes(r) == opt_bytes(*b),
{
    match b {
        Some(v) => {
            let c = v.clone();
            assert(c@ =~= v@);
            Some(c)
        },
        None => None,
    }
}

fn copy_request(t: &ReplayRequest) -> (r: ReplayRequest)
    ensures
        same_request(r, *t),
{
    ReplayRequest {
        source_flow_id: copy_string(&t.source_flow_id),
        method: copy_string(&t.method),
        url: copy_string(&t.url),
        headers: crate::model::copy_headers(&t.headers),
        body: copy_body(&t.body),
        content_type: copy_opt_string(&t.content_type),
        body_is_binary: t.body_is_binary,
    }
}

/// Fills a request's placeholders from the active environment's values:
/// the request to send, the request to record, and whether the URL took a
/// secret. A request without placeholders is sent and recorded as it is;
/// otherwise every placeholder must have a value.
pub fn interpolate_replay_request(template: ReplayRequest, values: &VariableMap) -> (r: Result<(ReplayRequest, ReplayRequest, bool), AppError>)
    ensures
        request_keys(template).len() == 0 ==> (r matches Ok((x, p, secret_url)) && same_request(x, template)
            && same_request(p, template) && !secret_url),
        request_keys(template).len() > 0 && !all_resolved(template, values@) ==> (r matches Err(e)
            && e.code@ == "environment_variables_missing"@ && e.recoverable),
        request_keys(template).len() > 0 && all_resolved(template, values@) ==> (r matches Ok((x, p, secret_url))
            && filled_requests(template, values@, x, p) && secret_url == interp(template.url@, values@).1),
{
    let keys = collect_template_keys(&template);
    if keys.len() == 0 {
        return Ok((copy_request(&template), template, false));
    }
    let ghost vals = values@;
    let url = match fill_text(template.url.as_str(), values) {
        Ok(u) => u,
        Err(e) => {
            return Err(e);
        },
    };
    let mut sent: Vec<HeaderValue> = Vec::new();
    let mut recorded: Vec<HeaderValue> = Vec::new();
    let mut i: usize = 0;
    while i < template.headers.len()
        invariant
            i <= template.headers@.len(),
            vals == values@,
            request_keys(template).len() > 0,
            headers_view(sent@) == template.headers@.take(i as int).map_values(|h: HeaderValue| executed_header(h, vals)),
            headers_view(recorded@) == template.headers@.take(i as int).map_values(|h: HeaderValue| persisted_header(h, vals)),
            forall|j: int| 0 <= j < i ==> interp((#[trigger] template.headers@[j]).value@, vals).2.len() == 0,
        decreases template.headers@.len() - i,
    {
        let h = &template.headers[i];
        let filled = match fill_text(h.value.as_str(), values) {
            Ok(f) => f,
            Err(e) => {
                return Err(e);
            },
        };
        let ghost s0 = sent@;
        let ghost r0 = recorded@;
        sent.push(HeaderValue { name: copy_string(&h.name), value: copy_string(&filled.value), sensitive: h.sensitive });
        if filled.used_secret {
            recorded.push(HeaderValue { name: copy_string(&h.name), value: copy_string(&h.value), sensitive: true });
        } else {
            recorded.push(HeaderValue { name: copy_string(&h.name), value: filled.value, sensitive: h.sensitive });
        }
        proof {
            assert(template.headers@.take(i + 1) == template.headers@.take(i as int).push(*h));
            assert(headers_view(sent@) =~= headers_view(s0).push(executed_header(*h, vals)));
            assert(headers_view(recorded@) =~= headers_view(r0).push(persisted_header(*h, vals)));
            assert(template.headers@.take(i + 1).map_values(|h: HeaderValue| executed_header(h, vals)) =~= template.headers@.take(
                i as int,
            ).map_values(|h: HeaderValue| executed_header(h, vals)).push(executed_header(*h, vals)));
            assert(template.headers@.take(i + 1).map_values(|h: HeaderValue| persisted_header(h, vals)) =~= template.headers@.take(
                i as int,
            ).map_values(|h: HeaderValue| persisted_header(h, vals)).push(persisted_header(*h, vals)));
        }
        i = i + 1;
    }
    assert(template.headers@.take(template.headers@.len() as int) == template.headers@);
    let mut sent_body = copy_body(&template.body);
    let mut recorded_body = copy_body(&template.body);
    if !template.body_is_binary {
        match &template.body {
            Some(b) => {
                let copy = b.clone();
                assert(copy@ =~= b@);
                match utf8_string(copy) {
                    Some(text) => {
                        let filled = match fill_text(text.as_str(), values) {
                            Ok(f) => f,
                            Err(e) => {
                                return Err(e);
                            },
                        };
                        let bytes = vstd::slice::slice_to_vec(filled.value.as_str().as_bytes());
                        if !filled.used_secret {
                            recorded_body = Some(vstd::slice::slice_to_vec(filled.value.as_str().as_bytes()));
                        }
                        sent_body = Some(bytes);
                    },
                    None => {},
                }
            },
            None => {},
        }
    }
    let sent_url = copy_string(&url.value);
    let recorded_url = if url.used_secret { copy_string(&template.url) } else { url.value };
    let x = ReplayRequest {
        source_flow_id: copy_string(&template.source_flow_id),
        method: copy_string(&template.method),
        url: sent_url,
        headers: sent,
        body: sent_body,
        content_type: copy_opt_string(&template.content_type),
        body_is_binary: template.body_is_binary,
    };
    let p = ReplayRequest {
        source_flow_id: template.source_flow_id,
        method: template.method,
        url: recorded_url,
        headers: recorded,
        body: recorded_body,
        content_type: template.content_type,
        body_is_binary: template.body_is_binary,
    };
    Ok((x, p, url.used_secret))
}

// ---------------------------------------------------------------------------
// Recording the replay
// ---------------------------------------------------------------------------

/// What sending a replay request gave.
#[derive(Debug, Clone, PartialEq, Eq)]
pub struct ReplayExecution {
    pub scheme: String,
    pub host: String,
    pub port: Option<u16>,
    pub path: String,
    pub query: Option<String>,
    pub status_code: u16,
    pub reason: Option<String>,
    pub response_headers: Vec<HeaderValue>,
    pub response_body: Vec<u8>,
    pub response_content_type: Option<String>,
    pub response_body_truncated: bool,
    pub total_ms: u64,
    pub started_at: String,
}

/// The bodies a replay stores, as (content type, binary, truncated): the
/// request body as it is recorded, and the response body where there is
/// one (binary unless its content type is a text type).
pub open spec fn stored_bodies(recorded: ReplayRequest, execution: ReplayExecution) -> (Option<(Option<Seq<char>>, bool, bool)>, Option<(Option<Seq<char>>, bool, bool)>) {
    (
        if recorded.body is Some { Some((opt_view(recorded.content_type), recorded.body_is_binary, false)) } else { None },
        if execution.response_body@.len() == 0 {
            None
        } else {
            Some((
                opt_view(execution.response_content_type),
                crate::replay::binary_content_type(opt_view(execution.response_content_type)),
                execution.response_body_truncated,
            ))
        },
    )
}

pub open spec fn body_plan_view(b: Option<(Option<String>, bool, bool)>) -> Option<(Option<Seq<char>>, bool, bool)> {
    match b {
        Some((c, binary, cut)) => Some((opt_view(c), binary, cut)),
        None => None,
    }
}

/// Which bodies of a replay the caller stores, and how they are marked.
pub fn replay_bodies(recorded: &ReplayRequest, execution: &ReplayExecution) -> (r: (Option<(Option<String>, bool, bool)>, Option<(Option<String>, bool, bool)>))
    ensures
        (body_plan_view(r.0), body_plan_view(r.1)) == stored_bodies(*recorded, *execution),
{
    let request = if recorded.body.is_some() {
        Some((copy_opt_string(&recorded.content_type), recorded.body_is_binary, false))
    } else {
        None
    };
    let response = if execution.response_body.len() == 0 {
        None
    } else {
        let binary = match &execution.response_content_type {
            Some(c) => crate::replay::is_binary_content_type(Some(c.as_str())),
            None => crate::replay::is_binary_content_type(None),
        };
        Some((copy_opt_string(&execution.response_content_type), binary, execution.response_body_truncated))
    };
    (request, response)
}

/// The flow a replay records: a replay flow of the source's session, with
/// the request as recorded and the response as received. Where the URL
/// took a secret, its host and path are recorded as placeholders and its
/// port and query not at all.
pub open spec fn replay_flow_of(
    flow_id: Seq<char>,
    session_id: Option<String>,
    recorded: ReplayRequest,
    execution: ReplayExecution,
    secret_url: bool,
    request_body: Option<BodyRef>,
    response_body: Option<BodyRef>,
    d: FlowDetail,
) -> bool {
    let host = if secret_url { "<templated-host>"@ } else { execution.host@ };
    let path = if secret_url { "<templated-path>"@ } else { execution.path@ };
    &&& d.summary.schema_version == SCHEMA_VERSION
    &&& d.summary.id@ == flow_id
    &&& d.summary.session_id == session_id
    &&& d.summary.source == FlowSource::Replay
    &&& d.summary.method@ == recorded.method@
    &&& d.summary.host@ == host
    &&& d.summary.path@ == path
    &&& d.summary.status_code == Some(execution.status_code)
    &&& d.summary.duration_ms == Some(execution.total_ms)
    &&& d.summary.response_size_bytes == Some(execution.response_body@.len() as u64)
    &&& d.summary.started_at@ == execution.started_at@
    &&& d.request matches Some(req) && {
        &&& req.method@ == recorded.method@
        &&& req.url@ == recorded.url@
        &&& req.scheme@ == execution.scheme@
        &&& req.host@ == host
        &&& req.port == (if secret_url { None } else { execution.port })
        &&& req.path@ == path
        &&& opt_view(req.query) == (if secret_url { None } else { opt_view(execution.query) })
        &&& req.headers@ == recorded.headers@
        &&& req.body == request_body
    }
    &&& d.response matches Some(res) && {
        &&& res.status_code == execution.status_code
        &&& opt_view(res.reason) == opt_view(execution.reason)
        &&& res.headers@ == execution.response_headers@
        &&& res.body == response_body
    }
    &&& d.timing == (Timing {
        dns_ms: None,
        connect_ms: None,
        tls_ms: None,
        request_ms: None,
        server_ms: None,
        download_ms: None,
        total_ms: Some(execution.total_ms),
    })
    &&& d.error_code is None
    &&& d.error_message is None
}

pub fn replay_flow_detail(
    flow_id: String,
    session_id: Option<String>,
    recorded: ReplayRequest,
    execution: ReplayExecution,
    secret_url: bool,
    request_body: Option<BodyRef>,
    response_body: Option<BodyRef>,
) -> (d: FlowDetail)
    ensures
        replay_flow_of(flow_id@, session_id, recorded, execution, secret_url, request_body, response_body, d),
{
    let host = if secret_url { owned("<templated-host>") } else { copy_string(&execution.host) };
    let path = if secret_url { owned("<templated-path>") } else { copy_string(&execution.path) };
    let size = execution.response_body.len() as u64;
    let summary = FlowSummary {
        schema_version: SCHEMA_VERSION,
        id: flow_id,
        session_id,
        source: FlowSource::Replay,
        method: copy_string(&recorded.method),
        host: copy_string(&host),
        path: copy_string(&path),
        status_code: Some(execution.status_code),
        duration_ms: Some(execution.total_ms),
        response_size_bytes: Some(size),
        started_at: copy_string(&execution.started_at),
    };
    let request = RequestDetail {
        method: recorded.method,
        url: recorded.url,
        scheme: copy_string(&execution.scheme),
        host,
        port: if secret_url { None } else { execution.port },
        path,
        query: if secret_url { None } else { copy_opt_string(&execution.query) },
        headers: recorded.headers,
        body: request_body,
    };
    let response = ResponseDetail {
        status_code: execution.status_code,
        reason: execution.reason,
        headers: execution.response_headers,
        body: response_body,
    };
    FlowDetail {
        summary,
        request: Some(request),
        response: Some(response),
        timing: Timing {
            dns_ms: None,
            connect_ms: None,
            tls_ms: None,
            request_ms: None,
            server_ms: None,
            download_ms: None,
            total_ms: Some(execution.total_ms),
        },
        error_code: None,
        error_message: None,
    }
}

} // verus!
