//! Hiding secret header values before data leaves the studio.
use vstd::prelude::*;

use crate::model::{FlowDetail, HeaderValue};
use crate::text::{chars_of, lower_is, owned, seq_lower};
use crate::workspace::SavedRequest;

verus! {

/// Header names whose values always count as secrets, in lower case.
pub open spec fn is_secret_header_name(lower: Seq<char>) -> bool {
    ||| lower == "authorization"@
    ||| lower == "proxy-authorization"@
    ||| lower == "cookie"@
    ||| lower == "set-cookie"@
    ||| lower == "x-api-key"@
    ||| lower == "api-key"@
    ||| lower == "x-auth-token"@
}

/// Whether a header name (compared without ASCII case) is a known secret.
pub fn is_sensitive_header(name: &str) -> (r: bool)
    ensures
        r == is_secret_header_name(seq_lower(name@)),
{
    let v = chars_of(name);
    lower_is(&v, "authorization") || lower_is(&v, "proxy-authorization") || lower_is(&v, "cookie")
        || lower_is(&v, "set-cookie") || lower_is(&v, "x-api-key") || lower_is(&v, "api-key")
        || lower_is(&v, "x-auth-token")
}

/// A header whose value must not leave the studio: flagged as sensitive or
/// carrying a known secret name.
pub open spec fn header_is_secret(h: HeaderValue) -> bool {
    h.sensitive || is_secret_header_name(seq_lower(h.name@))
}

/// `new` is `old` with the value of every header selected by `selected` replaced
/// by `<redacted>`; when `mark` holds such headers are also flagged sensitive.
/// Every other header is kept as it was.
pub open spec fn headers_redacted(
    old: Seq<HeaderValue>,
    new: Seq<HeaderValue>,
    selected: spec_fn(HeaderValue) -> bool,
    mark: bool,
) -> bool {
    &&& new.len() == old.len()
    &&& forall|i: int|
        0 <= i < old.len() ==> {
            if selected(#[trigger] old[i]) {
                &&& new[i].name == old[i].name
                &&& new[i].value@ == "<redacted>"@
                &&& new[i].sensitive == (mark || old[i].sensitive)
            } else {
                new[i] == old[i]
            }
        }
}

/// Export redaction: secret headers get `<redacted>` and the sensitive flag.
pub open spec fn export_redacted(old: Seq<HeaderValue>, new: Seq<HeaderValue>) -> bool {
    headers_redacted(old, new, |h: HeaderValue| header_is_secret(h), true)
}

/// Display redaction: headers flagged sensitive get `<redacted>`.
pub open spec fn display_redacted(old: Seq<HeaderValue>, new: Seq<HeaderValue>) -> bool {
    headers_redacted(old, new, |h: HeaderValue| h.sensitive, false)
}

/// On export, a header named as one of the known secrets (in any ASCII
/// case) has its value replaced by `<redacted>` and is flagged sensitive,
/// however it was flagged; its name is kept.
pub proof fn known_secret_headers_are_redacted_on_export(old: Seq<HeaderValue>, new: Seq<HeaderValue>, i: int)
    requires
        export_redacted(old, new),
        0 <= i < old.len(),
        ({
            let n = seq_lower(old[i].name@);
            ||| n == "authorization"@
            ||| n == "proxy-authorization"@
            ||| n == "cookie"@
            ||| n == "set-cookie"@
            ||| n == "x-api-key"@
            ||| n == "api-key"@
            ||| n == "x-auth-token"@
        }),
    ensures
        new[i].name == old[i].name,
        new[i].value@ == "<redacted>"@,
        new[i].sensitive,
{
    assert(header_is_secret(old[i]));
}

/// On export, a header flagged sensitive has its value replaced by
/// `<redacted>`.
pub proof fn flagged_headers_are_redacted_on_export(old: Seq<HeaderValue>, new: Seq<HeaderValue>, i: int)
    requires
        export_redacted(old, new),
        0 <= i < old.len(),
        old[i].sensitive,
    ensures
        new[i].name == old[i].name,
        new[i].value@ == "<redacted>"@,
        new[i].sensitive,
{
    assert(header_is_secret(old[i]));
}

fn redact_headers_for_export(headers: &mut Vec<HeaderValue>)
    ensures
        export_redacted(old(headers)@, final(headers)@),
{
    let ghost start = headers@;
    let n = headers.len();
    for i in 0..n
        invariant
            n == start.len(),
            headers@.len() == n,
            forall|j: int| i <= j < n ==> headers@[j] == start[j],
            forall|j: int|
                0 <= j < i ==> {
                    if header_is_secret(#[trigger] start[j]) {
                        &&& headers@[j].name == start[j].name
                        &&& headers@[j].value@ == "<redacted>"@
                        &&& headers@[j].sensitive == true
                    } else {
                        headers@[j] == start[j]
                    }
                },
    {
        let secret = headers[i].sensitive || is_sensitive_header(headers[i].name.as_str());
        if secret {
            let name = headers[i].name.clone();
            headers.set(i, HeaderValue { name, value: owned("<redacted>"), sensitive: true });
        }
    }
}

fn redact_headers_for_display(headers: &mut Vec<HeaderValue>)
    ensures
        display_redacted(old(headers)@, final(headers)@),
{
    let ghost start = headers@;
    let n = headers.len();
    for i in 0..n
        invariant
            n == start.len(),
            headers@.len() == n,
            forall|j: int| i <= j < n ==> headers@[j] == start[j],
            forall|j: int|
                0 <= j < i ==> {
                    if (#[trigger] start[j]).sensitive {
                        &&& headers@[j].name == start[j].name
                        &&& headers@[j].value@ == "<redacted>"@
                        &&& headers@[j].sensitive == start[j].sensitive
                    } else {
                        headers@[j] == start[j]
                    }
                },
    {
        if headers[i].sensitive {
            let name = headers[i].name.clone();
            headers.set(i, HeaderValue { name, value: owned("<redacted>"), sensitive: true });
        }
    }
}

/// `new` is `old` with the request and response headers redacted by `rel`
/// and everything else unchanged.
pub open spec fn detail_redacted(
    old: FlowDetail,
    new: FlowDetail,
    rel: spec_fn(Seq<HeaderValue>, Seq<HeaderValue>) -> bool,
) -> bool {
    &&& new.summary == old.summary
    &&& new.timing == old.timing
    &&& new.error_code == old.error_code
    &&& new.error_message == old.error_message
    &&& (new.request is Some <==> old.request is Some)
    &&& (new.response is Some <==> old.response is Some)
    &&& old.request matches Some(o) ==> {
        let n = new.request->0;
        &&& n.method == o.method
        &&& n.url == o.url
        &&& n.scheme == o.scheme
        &&& n.host == o.host
        &&& n.port == o.port
        &&& n.path == o.path
        &&& n.query == o.query
        &&& n.body == o.body
        &&& rel(o.headers@, n.headers@)
    }
    &&& old.response matches Some(o) ==> {
        let n = new.response->0;
        &&& n.status_code == o.status_code
        &&& n.reason == o.reason
        &&& n.body == o.body
        &&& rel(o.headers@, n.headers@)
    }
}

/// Hides the value of every secret request and response header of a flow
/// before it is exported: headers flagged sensitive and headers with a known
/// secret name (such as `Authorization` or `Set-Cookie`).
pub fn redact_flow_detail(detail: &mut FlowDetail)
    ensures
        detail_redacted(
            *old(detail),
            *final(detail),
            |o: Seq<HeaderValue>, n: Seq<HeaderValue>| export_redacted(o, n),
        ),
{
    match detail.request.take() {
        Some(mut request) => {
            redact_headers_for_export(&mut request.headers);
            detail.request = Some(request);
        },
        None => {},
    }
    match detail.response.take() {
        Some(mut response) => {
            redact_headers_for_export(&mut response.headers);
            detail.response = Some(response);
        },
        None => {},
    }
}

/// Hides the values of headers flagged sensitive before a flow is shown.
pub fn redact_detail_for_ui(detail: FlowDetail) -> (r: FlowDetail)
    ensures
        detail_redacted(
            detail,
            r,
            |o: Seq<HeaderValue>, n: Seq<HeaderValue>| display_redacted(o, n),
        ),
{
    let mut detail = detail;
    match detail.request.take() {
        Some(mut request) => {
            redact_headers_for_display(&mut request.headers);
            detail.request = Some(request);
        },
        None => {},
    }
    match detail.response.take() {
        Some(mut response) => {
            redact_headers_for_display(&mut response.headers);
            detail.response = Some(response);
        },
        None => {},
    }
    detail
}

/// `new` is `old` with its headers redacted by `rel` and everything else kept.
pub open spec fn saved_request_redacted(
    old: SavedRequest,
    new: SavedRequest,
    rel: spec_fn(Seq<HeaderValue>, Seq<HeaderValue>) -> bool,
) -> bool {
    &&& new.schema_version == old.schema_version
    &&& new.id == old.id
    &&& new.collection_id == old.collection_id
    &&& new.name == old.name
    &&& new.method == old.method
    &&& new.url == old.url
    &&& new.body == old.body
    &&& new.source_flow_id == old.source_flow_id
    &&& new.sort_order == old.sort_order
    &&& new.created_at == old.created_at
    &&& new.updated_at == old.updated_at
    &&& rel(old.headers@, new.headers@)
}

/// Hides secret header values of a saved request before it is exported.
pub fn redact_saved_request(request: SavedRequest) -> (r: SavedRequest)
    ensures
        saved_request_redacted(
            request,
            r,
            |o: Seq<HeaderValue>, n: Seq<HeaderValue>| export_redacted(o, n),
        ),
{
    let mut request = request;
    redact_headers_for_export(&mut request.headers);
    request
}

/// Hides the values of headers flagged sensitive before a saved request is
/// shown.
pub fn redact_saved_request_for_ui(request: SavedRequest) -> (r: SavedRequest)
    ensures
        saved_request_redacted(
            request,
            r,
            |o: Seq<HeaderValue>, n: Seq<HeaderValue>| display_redacted(o, n),
        ),
{
    let mut request = request;
    redact_headers_for_display(&mut request.headers);
    request
}

/// Every saved request of a list redacted for display, in order.
pub fn redact_saved_requests(requests: Vec<SavedRequest>) -> (r: Vec<SavedRequest>)
    ensures
        r@.len() == requests@.len(),
        forall|i: int|
            0 <= i < requests@.len() ==> saved_request_redacted(
                #[trigger] requests@[i],
                r@[i],
                |o: Seq<HeaderValue>, n: Seq<HeaderValue>| display_redacted(o, n),
            ),
{
    let ghost original = requests@;
    let mut rest = requests;
    let mut out: Vec<SavedRequest> = Vec::new();
    while rest.len() > 0
        invariant
            out@.len() + rest@.len() == original.len(),
            rest@ == original.skip(out@.len() as int),
            forall|j: int|
                0 <= j < out@.len() ==> saved_request_redacted(
                    #[trigger] original[j],
                    out@[j],
                    |o: Seq<HeaderValue>, n: Seq<HeaderValue>| display_redacted(o, n),
                ),
        decreases rest@.len(),
    {
        let ghost k = out@.len() as int;
        let first = rest.remove(0);
        assert(first == original[k]);
        assert(rest@ == original.skip(k + 1));
        out.push(redact_saved_request_for_ui(first));
    }
    out
}


/// Redacting a copy is redacting the original.
pub proof fn lemma_redacted_copy(
    a: FlowDetail,
    b: FlowDetail,
    c: FlowDetail,
    rel: spec_fn(Seq<HeaderValue>, Seq<HeaderValue>) -> bool,
)
    requires
        detail_redacted(a, b, |o: Seq<HeaderValue>, n: Seq<HeaderValue>| n == o),
        detail_redacted(b, c, rel),
    ensures
        detail_redacted(a, c, rel),
{
}

} // verus!
