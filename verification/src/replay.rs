//! Replaying captured requests: the draft the user edits, the headers that
//! may be sent again, and the `{{variable}}` keys a request refers to.
//!
//! Sending the request is left to the caller.
use vstd::prelude::*;

use crate::model::HeaderValue;
use crate::text::{
    chars_of, contains_chars, contains_seq, copy_string, find_exec, find_from, has_prefix, lemma_find_from_some,
    lower_is, owned, seq_lower, slice_chars, starts_with_chars, string_of, trim, trim_chars,
};

verus! {

/// A request to send again, as the user edited it.
#[derive(Debug, Clone, PartialEq, Eq)]
pub struct ReplayDraft {
    pub source_flow_id: Option<String>,
    pub session_id: Option<String>,
    pub method: String,
    pub url: String,
    pub headers: Vec<HeaderValue>,
    pub body_text: Option<String>,
}

#[derive(Debug, Clone, PartialEq, Eq)]
pub struct ReplayError {
    pub code: String,
    pub message: String,
    pub recoverable: bool,
}

impl ReplayError {
    pub fn new(code: &str, message: &str, recoverable: bool) -> (e: Self)
        ensures
            e.code@ == code@,
            e.message@ == message@,
            e.recoverable == recoverable,
    {
        ReplayError { code: owned(code), message: owned(message), recoverable }
    }
}

/// The header through which the SDK correlates its events with captured
/// traffic; it is internal and never sent again.
pub const CORRELATION_HEADER: &'static str = "x-mobile-api-studio-request-id";

/// Headers that describe the connection rather than the request, and the
/// internal correlation header, are not sent again.
pub open spec fn replayable(name: Seq<char>) -> bool {
    let n = seq_lower(name);
    n != "host"@ && n != "content-length"@ && n != "transfer-encoding"@ && n != "connection"@
        && n != CORRELATION_HEADER@
}

pub fn is_replayable_header(name: &str) -> (r: bool)
    ensures
        r == replayable(name@),
{
    let v = chars_of(name);
    !(lower_is(&v, "host") || lower_is(&v, "content-length") || lower_is(&v, "transfer-encoding") || lower_is(
        &v,
        "connection",
    ) || lower_is(&v, CORRELATION_HEADER))
}

pub open spec fn replayable_headers(headers: Seq<HeaderValue>) -> Seq<HeaderValue>
    decreases headers.len(),
{
    if headers.len() == 0 {
        headers
    } else if replayable(headers.last().name@) {
        replayable_headers(headers.drop_last()).push(headers.last())
    } else {
        replayable_headers(headers.drop_last())
    }
}

/// A header is sent again exactly when its name, in ASCII lower case, is
/// none of `host`, `content-length`, `transfer-encoding`, `connection` and
/// the internal `x-mobile-api-studio-request-id`.
pub proof fn replayed_headers_are_those_not_excluded(name: Seq<char>)
    ensures
        replayable(name) <==> ({
            let n = seq_lower(name);
            &&& n != "host"@
            &&& n != "content-length"@
            &&& n != "transfer-encoding"@
            &&& n != "connection"@
            &&& n != "x-mobile-api-studio-request-id"@
        }),
{
}

/// What is sent again is the headers that may be, each kept as it was and
/// in their order: every kept header may be sent, and every header that
/// may be sent is kept.
pub proof fn replayed_headers_keep_the_others(headers: Seq<HeaderValue>)
    ensures
        forall|h: HeaderValue| #[trigger] replayable_headers(headers).contains(h) ==> headers.contains(h) && replayable(h.name@),
        forall|h: HeaderValue| headers.contains(h) && replayable(h.name@) ==> #[trigger] replayable_headers(headers).contains(h),
    decreases headers.len(),
{
    if headers.len() > 0 {
        let rest = headers.drop_last();
        replayed_headers_keep_the_others(rest);
        assert forall|h: HeaderValue| #[trigger] replayable_headers(headers).contains(h) implies headers.contains(h)
            && replayable(h.name@) by {
            if replayable(headers.last().name@) {
                let r = replayable_headers(rest);
                if h != headers.last() {
                    let j = choose|j: int| 0 <= j < r.push(headers.last()).len() && r.push(headers.last())[j] == h;
                    assert(r.contains(h)) by {
                        assert(r[j] == h);
                    }
                    assert(rest.contains(h));
                    let k = choose|k: int| 0 <= k < rest.len() && rest[k] == h;
                    assert(headers[k] == h);
                } else {
                    assert(headers[headers.len() - 1] == h);
                }
            } else {
                assert(replayable_headers(headers) == replayable_headers(rest));
                assert(replayable_headers(rest).contains(h));
                assert(rest.contains(h));
                let k = choose|k: int| 0 <= k < rest.len() && rest[k] == h;
                assert(headers[k] == h);
            }
        }
        assert forall|h: HeaderValue| headers.contains(h) && replayable(h.name@) implies #[trigger] replayable_headers(
            headers,
        ).contains(h) by {
            let k = choose|k: int| 0 <= k < headers.len() && headers[k] == h;
            if k < headers.len() - 1 {
                assert(rest[k] == h);
                assert(rest.contains(h));
                let r = replayable_headers(rest);
                assert(r.contains(h));
                if replayable(headers.last().name@) {
                    let j = choose|j: int| 0 <= j < r.len() && r[j] == h;
                    assert(r.push(headers.last())[j] == h);
                } else {
                    assert(replayable_headers(headers) == r);
                }
            } else {
                let r = replayable_headers(rest);
                assert(r.push(headers.last())[r.len() as int] == h);
            }
        }
    }
}

/// The headers of a draft that are sent again, in order.
pub fn replay_headers(headers: Vec<HeaderValue>) -> (r: Vec<HeaderValue>)
    ensures
        r@ == replayable_headers(headers@),
{
    let ghost orig = headers@;
    let mut headers = headers;
    let mut r: Vec<HeaderValue> = Vec::new();
    let ghost mut k: int = 0;
    while headers.len() > 0
        invariant
            0 <= k <= orig.len(),
            headers@ == orig.skip(k),
            r@ == replayable_headers(orig.take(k)),
        decreases headers@.len(),
    {
        let h = headers.remove(0);
        proof {
            assert(k < orig.len());
            assert(orig.skip(k)[0] == h);
            assert(headers@ =~= orig.skip(k + 1));
            assert(orig.take(k + 1).drop_last() == orig.take(k));
            assert(orig.take(k + 1).last() == h);
            k = k + 1;
        }
        if is_replayable_header(h.name.as_str()) {
            r.push(h);
        }
    }
    assert(orig.take(k) == orig);
    r
}

/// The value of the first `Content-Type` header, in any case.
pub open spec fn content_type_of(headers: Seq<HeaderValue>) -> Option<Seq<char>>
    decreases headers.len(),
{
    if headers.len() == 0 {
        None
    } else if seq_lower(headers[0].name@) == "content-type"@ {
        Some(headers[0].value@)
    } else {
        content_type_of(headers.drop_first())
    }
}

pub fn content_type(headers: &Vec<HeaderValue>) -> (r: Option<String>)
    ensures
        crate::devices::opt_view(r) == content_type_of(headers@),
{
    let mut i: usize = 0;
    assert(headers@.skip(0) == headers@);
    while i < headers.len()
        invariant
            i <= headers@.len(),
            content_type_of(headers@) == content_type_of(headers@.skip(i as int)),
        decreases headers@.len() - i,
    {
        assert(headers@.skip(i as int)[0] == headers@[i as int]);
        assert(headers@.skip(i as int).drop_first() == headers@.skip(i + 1));
        if lower_is(&chars_of(headers[i].name.as_str()), "content-type") {
            return Some(copy_string(&headers[i].value));
        }
        i = i + 1;
    }
    None
}

/// A duration in milliseconds, as a `u64`; longer ones are cut to the largest.
pub fn millis(ms: u128) -> (r: u64)
    ensures
        r == if ms <= u64::MAX { ms } else { u64::MAX as u128 },
{
    if ms <= u64::MAX as u128 {
        ms as u64
    } else {
        u64::MAX
    }
}

/// Whether a body of this content type is binary: a body without a content
/// type is; text, JSON, XML, JavaScript, form data and GraphQL are not.
/// A body without a content type is treated as binary; one whose type
/// (in any ASCII case) is `text/...`, or names JSON, XML, JavaScript, form
/// encoding or GraphQL is text.
pub proof fn textual_content_types_are_not_binary(t: Seq<char>)
    ensures
        binary_content_type(None),
        has_prefix(seq_lower(t), "text/"@) ==> !binary_content_type(Some(t)),
        contains_seq(seq_lower(t), "json"@) ==> !binary_content_type(Some(t)),
        contains_seq(seq_lower(t), "xml"@) ==> !binary_content_type(Some(t)),
        contains_seq(seq_lower(t), "javascript"@) ==> !binary_content_type(Some(t)),
        contains_seq(seq_lower(t), "x-www-form-urlencoded"@) ==> !binary_content_type(Some(t)),
        contains_seq(seq_lower(t), "graphql"@) ==> !binary_content_type(Some(t)),
{
}

pub open spec fn binary_content_type(content_type: Option<Seq<char>>) -> bool {
    match content_type {
        None => true,
        Some(t) => {
            let n = seq_lower(t);
            !(has_prefix(n, "text/"@) || contains_seq(n, "json"@) || contains_seq(n, "xml"@) || contains_seq(
                n,
                "javascript"@,
            ) || contains_seq(n, "x-www-form-urlencoded"@) || contains_seq(n, "graphql"@))
        },
    }
}

pub fn is_binary_content_type(content_type: Option<&str>) -> (r: bool)
    ensures
        r == binary_content_type(crate::ai::opt_str_view(content_type)),
{
    match content_type {
        None => true,
        Some(t) => {
            let n = crate::text::lower_chars(&chars_of(t));
            !(starts_with_chars(&n, &chars_of("text/")) || contains_chars(&n, &chars_of("json")) || contains_chars(
                &n,
                &chars_of("xml"),
            ) || contains_chars(&n, &chars_of("javascript")) || contains_chars(
                &n,
                &chars_of("x-www-form-urlencoded"),
            ) || contains_chars(&n, &chars_of("graphql")))
        },
    }
}

// ---------------------------------------------------------------------------
// Template keys
// ---------------------------------------------------------------------------

pub open spec fn opening() -> Seq<char> {
    seq!['{', '{']
}

pub open spec fn closing() -> Seq<char> {
    seq!['}', '}']
}

/// The keys of the `{{key}}` placeholders of a text, in order: each `{{`
/// pairs with the first `}}` after it, the key is the trimmed text between,
/// and empty keys are left out. Scanning stops at a `{{` without a `}}`.
pub open spec fn template_keys(s: Seq<char>) -> Seq<Seq<char>>
    decreases s.len(),
{
    match find_from(s, opening(), 0) {
        None => seq![],
        Some(start) => {
            let after = s.skip(start + 2);
            match find_from(after, closing(), 0) {
                None => seq![],
                Some(end) => {
                    proof {
                        lemma_find_from_some(s, opening(), 0);
                        lemma_find_from_some(after, closing(), 0);
                    }
                    let key = trim(after.take(end));
                    let rest = template_keys(after.skip(end + 2));
                    if key.len() > 0 {
                        seq![key] + rest
                    } else {
                        rest
                    }
                },
            }
        },
    }
}

/// The keys a text refers to through `{{key}}` placeholders.
pub fn collect_keys_from_text(text: &str) -> (r: Vec<String>)
    ensures
        r@.map_values(|k: String| k@) == template_keys(text@),
{
    let open = chars_of("{{");
    let close = chars_of("}}");
    proof {
        reveal_strlit("{{");
        reveal_strlit("}}");
        assert(open@ =~= opening());
        assert(close@ =~= closing());
    }
    let mut rest = chars_of(text);
    let mut r: Vec<String> = Vec::new();
    let ghost full = template_keys(text@);
    loop
        invariant
            open@ == opening(),
            close@ == closing(),
            full == template_keys(text@),
            full == r@.map_values(|k: String| k@) + template_keys(rest@),
        decreases rest@.len(),
    {
        let start = match find_exec(&rest, &open, 0) {
            Some(s) => s,
            None => {
                assert(full == r@.map_values(|k: String| k@) + seq![]);
                return r;
            },
        };
        let n = rest.len();
        proof {
            lemma_find_from_some(rest@, open@, 0);
            assert(crate::text::occurs_at(rest@, open@, start as int));
            assert(start + 2 <= n);
        }
        let after = slice_chars(&rest, start + 2, rest.len());
        assert(after@ == rest@.skip(start + 2));
        let end = match find_exec(&after, &close, 0) {
            Some(e) => e,
            None => {
                assert(full == r@.map_values(|k: String| k@) + seq![]);
                return r;
            },
        };
        let m = after.len();
        proof {
            lemma_find_from_some(after@, close@, 0);
            assert(crate::text::occurs_at(after@, close@, end as int));
            assert(end + 2 <= m);
        }
        let key = trim_chars(&slice_chars(&after, 0, end));
        assert(after@.subrange(0, end as int) == after@.take(end as int));
        let next = slice_chars(&after, end + 2, after.len());
        assert(next@ == after@.skip(end + 2));
        if key.len() > 0 {
            let ghost before = r@;
            r.push(string_of(&key));
            assert(r@.map_values(|k: String| k@) == before.map_values(|k: String| k@).push(key@));
            assert(before.map_values(|k: String| k@) + (seq![key@] + template_keys(next@)) == r@.map_values(
                |k: String| k@,
            ) + template_keys(next@));
        }
        rest = next;
    }
}

} // verus!
