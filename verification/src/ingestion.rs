//! The HTTP/1.1 framing of the SDK ingestion endpoint: where a request's
//! head ends, what it asks for, and how long its body is.
use vstd::prelude::*;
use vstd::utf8::{decode_utf8, valid_utf8};

use crate::sdk::{SDK_EVENT_PATH, SDK_HEALTH_PATH};
use crate::text::{
    before_first, before_first_exec, chars_of, decimal, decimal_string, eq_ignore_case,
    extend_str, find_exec, lead_ws, find_from, is_space_char, is_white_space,
    lemma_find_from_some, owned, parse_u128, parse_u128_exec,
    seq_lower, seq_upper, slice_chars, string_of, trim, trim_chars, upper_chars,
};

verus! {

/// Largest request head the endpoint reads.
pub const MAX_HEADER_BYTES: usize = 65536;

/// Largest event body the endpoint accepts.
pub const MAX_BODY_BYTES: usize = 1048576;

#[derive(Debug, Clone, PartialEq, Eq)]
pub struct SdkTransportError {
    pub code: String,
    pub message: String,
}

impl SdkTransportError {
    pub fn new(code: &str, message: &str) -> (e: Self)
        ensures
            e.code@ == code@,
            e.message@ == message@,
    {
        SdkTransportError { code: owned(code), message: owned(message) }
    }
}

// ---------------------------------------------------------------------------
// End of the head
// ---------------------------------------------------------------------------

pub open spec fn blank_line_at(bytes: Seq<u8>, i: int) -> bool {
    0 <= i && i + 4 <= bytes.len() && bytes[i] == 13u8 && bytes[i + 1] == 10u8 && bytes[i + 2]
        == 13u8 && bytes[i + 3] == 10u8
}

/// Index of the first `\r\n\r\n` in `bytes`.
pub fn find_header_end(bytes: &[u8]) -> (r: Option<usize>)
    ensures
        match r {
            Some(i) => blank_line_at(bytes@, i as int) && forall|j: int|
                0 <= j < i ==> !blank_line_at(bytes@, j),
            None => forall|j: int| !blank_line_at(bytes@, j),
        },
{
    if bytes.len() < 4 {
        return None;
    }
    let last = bytes.len() - 4;
    let mut i: usize = 0;
    loop
        invariant
            i <= last,
            last + 4 == bytes@.len(),
            forall|j: int| 0 <= j < i ==> !blank_line_at(bytes@, j),
        decreases last - i,
    {
        if bytes[i] == 13 && bytes[i + 1] == 10 && bytes[i + 2] == 13 && bytes[i + 3] == 10 {
            return Some(i);
        }
        if i == last {
            return None;
        }
        i = i + 1;
    }
}

// ---------------------------------------------------------------------------
// The head
// ---------------------------------------------------------------------------

/// `std::str::from_utf8`: the text of `bytes` when they are valid UTF-8.
#[verifier::external_body]
fn utf8_text(bytes: &[u8]) -> (r: Option<String>)
    ensures
        r is Some <==> valid_utf8(bytes@),
        r matches Some(s) ==> s@ == decode_utf8(bytes@),
{
    match std::str::from_utf8(bytes) {
        Ok(text) => Some(text.to_string()),
        Err(_) => None,
    }
}

pub open spec fn crlf() -> Seq<char> {
    seq!['\r', '\n']
}

/// The lines of `s`, split at every `\r\n`.
pub open spec fn crlf_lines(s: Seq<char>) -> Seq<Seq<char>>
    decreases s.len(),
{
    match find_from(s, crlf(), 0) {
        Some(i) => {
            proof {
                lemma_find_from_some(s, crlf(), 0);
            }
            seq![s.take(i)] + crlf_lines(s.skip(i + 2))
        },
        None => seq![s],
    }
}

/// Length of the word at the start of `s` (up to the first white space).
pub open spec fn word_len(s: Seq<char>) -> nat
    decreases s.len(),
{
    if s.len() == 0 || is_white_space(s[0]) {
        0
    } else {
        1 + word_len(s.drop_first())
    }
}

/// The first word of `s` (`split_whitespace().next()`), empty when none.
pub open spec fn first_word(s: Seq<char>) -> Seq<char> {
    let t = s.skip(lead_ws(s) as int);
    t.take(word_len(t) as int)
}

/// What follows the first word of `s`.
pub open spec fn after_first_word(s: Seq<char>) -> Seq<char> {
    let t = s.skip(lead_ws(s) as int);
    t.skip(word_len(t) as int)
}

proof fn lemma_word_len(s: Seq<char>)
    ensures
        word_len(s) <= s.len(),
        forall|j: int| 0 <= j < word_len(s) ==> !is_white_space(#[trigger] s[j]),
        word_len(s) < s.len() ==> is_white_space(s[word_len(s) as int]),
    decreases s.len(),
{
    if s.len() > 0 && !is_white_space(s[0]) {
        lemma_word_len(s.drop_first());
        assert forall|j: int| 0 <= j < word_len(s) implies !is_white_space(#[trigger] s[j]) by {
            if j > 0 {
                assert(s[j] == s.drop_first()[j - 1]);
            }
        }
        if word_len(s) < s.len() {
            assert(s[word_len(s) as int] == s.drop_first()[word_len(s.drop_first()) as int]);
        }
    }
}

/// Positions `(start, end)` of the first word of `v[from..]`.
fn first_word_at(v: &Vec<char>, from: usize) -> (r: (usize, usize))
    requires
        from <= v@.len(),
    ensures
        from <= r.0 <= r.1 <= v@.len(),
        v@.subrange(r.0 as int, r.1 as int) == first_word(v@.skip(from as int)),
        v@.skip(r.1 as int) == after_first_word(v@.skip(from as int)),
{
    let ghost s = v@.skip(from as int);
    proof {
        crate::text::lemma_lead_ws(s);
    }
    let mut i = from;
    while i < v.len() && is_space_char(v[i])
        invariant
            from <= i <= v@.len(),
            s == v@.skip(from as int),
            i - from <= lead_ws(s),
            lead_ws(s) <= s.len(),
            forall|j: int| 0 <= j < lead_ws(s) ==> is_white_space(#[trigger] s[j]),
            lead_ws(s) < s.len() ==> !is_white_space(s[lead_ws(s) as int]),
        decreases v@.len() - i,
    {
        assert(v@[i as int] == s[i - from]);
        i = i + 1;
    }
    assert(i - from == lead_ws(s)) by {
        if i - from < lead_ws(s) {
            assert(v@[i as int] == s[i - from]);
        }
    }
    let ghost t = s.skip(lead_ws(s) as int);
    assert(t == v@.skip(i as int));
    proof {
        lemma_word_len(t);
    }
    let start = i;
    while i < v.len() && !is_space_char(v[i])
        invariant
            start <= i <= v@.len(),
            t == v@.skip(start as int),
            i - start <= word_len(t),
            word_len(t) <= t.len(),
            forall|j: int| 0 <= j < word_len(t) ==> !is_white_space(#[trigger] t[j]),
            word_len(t) < t.len() ==> is_white_space(t[word_len(t) as int]),
        decreases v@.len() - i,
    {
        assert(v@[i as int] == t[i - start]);
        i = i + 1;
    }
    assert(i - start == word_len(t)) by {
        if i - start < word_len(t) {
            assert(v@[i as int] == t[i - start]);
        }
    }
    assert(v@.subrange(start as int, i as int) == t.take(word_len(t) as int));
    assert(v@.skip(i as int) == t.skip(word_len(t) as int));
    (start, i)
}

/// A request head as the ingestion endpoint reads it.
#[derive(Debug, Clone, PartialEq, Eq)]
pub struct RequestHead {
    pub method: String,
    pub path: String,
    pub content_length: usize,
}

/// The name and value of a header line (`split_once(':')`).
pub open spec fn header_parts(line: Seq<char>) -> Option<(Seq<char>, Seq<char>)> {
    match find_from(line, seq![':'], 0) {
        Some(i) => Some((line.take(i), line.skip(i + 1))),
        None => None,
    }
}

pub open spec fn is_content_length_line(line: Seq<char>) -> bool {
    header_parts(line) matches Some(p) && seq_lower(trim(p.0)) == "content-length"@
}

pub open spec fn parse_usize(s: Seq<char>) -> Option<usize> {
    match parse_u128(s) {
        Some(v) => if v <= usize::MAX {
            Some(v as usize)
        } else {
            None
        },
        None => None,
    }
}

/// Reading the header lines in order: the content length declared last, or
/// `None` when a declared length does not parse (the first such line stops
/// the reading).
pub open spec fn declared_length(lines: Seq<Seq<char>>, so_far: usize) -> Option<usize>
    decreases lines.len(),
{
    if lines.len() == 0 {
        Some(so_far)
    } else if is_content_length_line(lines[0]) {
        let parts = header_parts(lines[0])->0;
        match parse_usize(trim(parts.1)) {
            Some(v) => declared_length(lines.drop_first(), v),
            None => None,
        }
    } else {
        declared_length(lines.drop_first(), so_far)
    }
}

/// The code of the error the endpoint answers a request head with, if any.
pub open spec fn head_problem(text: Seq<char>) -> Option<Seq<char>> {
    let lines = crlf_lines(text);
    let method = seq_upper(first_word(lines[0]));
    let raw_path = first_word(after_first_word(lines[0]));
    if method.len() == 0 || raw_path.len() == 0 {
        Some("sdk_http_request_line_invalid"@)
    } else {
        match declared_length(lines.drop_first(), 0) {
            None => Some("sdk_http_content_length_invalid"@),
            Some(n) => if n > MAX_BODY_BYTES {
                Some("sdk_http_body_too_large"@)
            } else {
                None
            },
        }
    }
}

} // verus!

verus! {

/// The lines of `v`, split at every `\r\n`.
fn crlf_lines_exec(v: &Vec<char>) -> (r: Vec<Vec<char>>)
    ensures
        crate::endpoint::views(r@) == crlf_lines(v@),
        r@.len() >= 1,
{
    let sep = chars_of("\r\n");
    proof {
        reveal_strlit("\r\n");
        assert(sep@ =~= crlf());
    }
    let mut lines: Vec<Vec<char>> = Vec::new();
    let mut pos: usize = 0;
    assert(v@.skip(0) == v@);
    loop
        invariant
            sep@ == crlf(),
            pos <= v@.len(),
            crlf_lines(v@) == crate::endpoint::views(lines@) + crlf_lines(v@.skip(pos as int)),
        decreases v@.len() - pos,
    {
        let ghost rest = v@.skip(pos as int);
        proof {
            crate::text::lemma_find_from_skip(v@, crlf(), pos as int, 0);
        }
        match find_exec(v, &sep, pos) {
            Some(i) => {
                proof {
                    lemma_find_from_some(v@, crlf(), pos as int);
                    lemma_find_from_some(rest, crlf(), 0);
                }
                assert(i + 2 <= v@.len());
                assert(v@.len() == v.len());
                let line = slice_chars(v, pos, i);
                let ghost before = crate::endpoint::views(lines@);
                lines.push(line);
                assert(rest.take(i - pos) == v@.subrange(pos as int, i as int));
                assert(rest.skip(i - pos + 2) == v@.skip(i + 2));
                assert(crate::endpoint::views(lines@) == before.push(line@));
                assert(before + crlf_lines(rest) =~= before.push(line@) + crlf_lines(v@.skip(i + 2)));
                pos = i + 2;
            },
            None => {
                let line = slice_chars(v, pos, v.len());
                let ghost before = crate::endpoint::views(lines@);
                lines.push(line);
                assert(rest == v@.subrange(pos as int, v@.len() as int));
                assert(crate::endpoint::views(lines@) =~= before + seq![rest]);
                return lines;
            },
        }
    }
}

/// `str::split_once(':')` of a header line.
fn header_parts_exec(line: &Vec<char>) -> (r: Option<(Vec<char>, Vec<char>)>)
    ensures
        match r {
            Some((n, v)) => header_parts(line@) == Some((n@, v@)),
            None => header_parts(line@) is None,
        },
{
    let mut colon: Vec<char> = Vec::new();
    colon.push(':');
    assert(colon@ =~= seq![':']);
    match find_exec(line, &colon, 0) {
        Some(i) => {
            proof {
                lemma_find_from_some(line@, seq![':'], 0);
            }
            assert(colon@ == seq![':']);
            assert(i + 1 <= line@.len());
            assert(line@.len() == line.len());
            let name = slice_chars(line, 0, i);
            let value = slice_chars(line, i + 1, line.len());
            assert(name@ == line@.take(i as int));
            assert(value@ == line@.skip(i + 1));
            Some((name, value))
        },
        None => None,
    }
}

fn parse_usize_exec(v: &Vec<char>) -> (r: Option<usize>)
    ensures
        r == parse_usize(v@),
{
    let text = string_of(v);
    match parse_u128_exec(text.as_str()) {
        Some(n) => if n <= usize::MAX as u128 {
            Some(n as usize)
        } else {
            None
        },
        None => None,
    }
}

fn transport_error(code: &str, message: &str) -> (r: Result<RequestHead, SdkTransportError>)
    ensures
        (r matches Err(e) && e.code@ == code@),
{
    Err(SdkTransportError::new(code, message))
}

/// Reads the method, the path (without its query) and the declared body
/// length from a request head, the bytes before the blank line.
pub fn parse_request_head(header: &[u8]) -> (r: Result<RequestHead, SdkTransportError>)
    ensures
        !valid_utf8(header@) ==> (r matches Err(e) && e.code@ == "sdk_http_headers_invalid"@),
        valid_utf8(header@) ==> {
            let text = decode_utf8(header@);
            let lines = crlf_lines(text);
            match head_problem(text) {
                Some(code) => (r matches Err(e) && e.code@ == code),
                None => (r matches Ok(head) && {
                    &&& head.method@ == seq_upper(first_word(lines[0]))
                    &&& head.path@ == before_first(first_word(after_first_word(lines[0])), '?')
                    &&& Some(head.content_length) == declared_length(lines.drop_first(), 0)
                }),
            }
        },
{
    let text = match utf8_text(header) {
        Some(text) => text,
        None => {
            return transport_error("sdk_http_headers_invalid", "request headers are not valid UTF-8");
        },
    };
    let chars = chars_of(text.as_str());
    let lines = crlf_lines_exec(&chars);
    let ghost line_views = crate::endpoint::views(lines@);
    let request_line = &lines[0];
    assert(line_views[0] == request_line@);
    let (m0, m1) = first_word_at(request_line, 0);
    assert(request_line@.skip(0) == request_line@);
    let method_raw = slice_chars(request_line, m0, m1);
    let method = upper_chars(&method_raw);
    let (p0, p1) = first_word_at(request_line, m1);
    let raw_path = slice_chars(request_line, p0, p1);
    if method.len() == 0 || raw_path.len() == 0 {
        return transport_error("sdk_http_request_line_invalid", "HTTP request line is invalid");
    }
    let path = before_first_exec(&raw_path, '?');
    let mut content_length: usize = 0;
    let mut k: usize = 1;
    assert(line_views.drop_first() == line_views.skip(1));
    while k < lines.len()
        invariant
            1 <= k <= lines@.len(),
            line_views == crate::endpoint::views(lines@),
            line_views == crlf_lines(decode_utf8(header@)),
            valid_utf8(header@),
            method@ == seq_upper(first_word(line_views[0])),
            raw_path@ == first_word(after_first_word(line_views[0])),
            method@.len() > 0,
            raw_path@.len() > 0,
            declared_length(line_views.drop_first(), 0) == declared_length(
                line_views.skip(k as int),
                content_length,
            ),
        decreases lines@.len() - k,
    {
        let line = &lines[k];
        assert(line_views.skip(k as int)[0] == line@);
        assert(line_views.skip(k as int).drop_first() == line_views.skip(k + 1));
        match header_parts_exec(line) {
            Some((name, value)) => {
                let trimmed_name = trim_chars(&name);
                let name_text = string_of(&trimmed_name);
                if eq_ignore_case(name_text.as_str(), "content-length") {
                    proof {
                        reveal_strlit("content-length");
                        assert(seq_lower("content-length"@) =~= "content-length"@);
                    }
                    let trimmed_value = trim_chars(&value);
                    match parse_usize_exec(&trimmed_value) {
                        Some(n) => {
                            content_length = n;
                        },
                        None => {
                            assert(is_content_length_line(line@));
                            assert(declared_length(line_views.skip(k as int), content_length) is None);
                            return transport_error(
                                "sdk_http_content_length_invalid",
                                "Content-Length is not a valid length",
                            );
                        },
                    }
                } else {
                    proof {
                        reveal_strlit("content-length");
                        assert(seq_lower("content-length"@) =~= "content-length"@);
                    }
                }
            },
            None => {},
        }
        k = k + 1;
    }
    assert(line_views.skip(k as int).len() == 0);
    if content_length > MAX_BODY_BYTES {
        return transport_error(
            "sdk_http_body_too_large",
            "SDK event exceeded the 1048576-byte ingestion limit",
        );
    }
    Ok(RequestHead { method: string_of(&method), path: string_of(&path), content_length })
}

/// What the endpoint does with a request.
#[derive(Debug, Clone, Copy, PartialEq, Eq, Structural)]
pub enum IngestionRoute {
    Health,
    Events,
    NotFound,
}

pub open spec fn route_of(method: Seq<char>, path: Seq<char>) -> IngestionRoute {
    if method == "GET"@ && path == SDK_HEALTH_PATH@ {
        IngestionRoute::Health
    } else if method == "POST"@ && path == SDK_EVENT_PATH@ {
        IngestionRoute::Events
    } else {
        IngestionRoute::NotFound
    }
}

/// `GET /health` is the health check, `POST /v1/events` takes an event,
/// anything else is not found.
pub fn route_request(method: &str, path: &str) -> (r: IngestionRoute)
    ensures
        r == route_of(method@, path@),
{
    if crate::text::str_eq(method, "GET") && crate::text::str_eq(path, SDK_HEALTH_PATH) {
        IngestionRoute::Health
    } else if crate::text::str_eq(method, "POST") && crate::text::str_eq(path, SDK_EVENT_PATH) {
        IngestionRoute::Events
    } else {
        IngestionRoute::NotFound
    }
}

/// The head of a JSON response with the given status and body length.
pub open spec fn response_head(status: u16, reason: Seq<char>, body_len: usize) -> Seq<char> {
    "HTTP/1.1 "@ + decimal(status as nat) + " "@ + reason
        + "\r\nContent-Type: application/json\r\nContent-Length: "@ + decimal(body_len as nat)
        + "\r\nConnection: close\r\nCache-Control: no-store\r\n\r\n"@
}

/// The head written before a JSON response body.
pub fn response_head_text(status: u16, reason: &str, body_len: usize) -> (r: String)
    ensures
        r@ == response_head(status, reason@, body_len),
{
    let mut v = chars_of("HTTP/1.1 ");
    extend_str(&mut v, decimal_string(status as u64).as_str());
    extend_str(&mut v, " ");
    extend_str(&mut v, reason);
    extend_str(&mut v, "\r\nContent-Type: application/json\r\nContent-Length: ");
    extend_str(&mut v, decimal_string(body_len as u64).as_str());
    extend_str(&mut v, "\r\nConnection: close\r\nCache-Control: no-store\r\n\r\n");
    string_of(&v)
}

} // verus!
