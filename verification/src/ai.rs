//! The evidence handed to an AI assistant: redacted, size-limited and
//! fingerprinted, so that what is sent is exactly what was previewed.
use vstd::prelude::*;

use crate::json::{JsonTree, JsonValue};
use crate::text::{before_first, owned, seq_lower, trim};

verus! {

pub const OPENAI_PROVIDER_ID: &'static str = "openai";

pub const DEFAULT_OPENAI_MODEL: &'static str = "gpt-5.6-luna";

pub const OPENAI_RESPONSES_URL: &'static str = "https://api.openai.com/v1/responses";

pub const INTERNAL_CORRELATION_HEADER: &'static str = "x-mobile-api-studio-request-id";

/// What the assistant is asked to do.
#[derive(Debug, Clone, Copy, PartialEq, Eq, Structural)]
pub enum AiTaskKind {
    SessionDiff,
    FlowDiagnosis,
}

pub open spec fn task_name(task: AiTaskKind) -> Seq<char> {
    match task {
        AiTaskKind::SessionDiff => "session_diff"@,
        AiTaskKind::FlowDiagnosis => "flow_diagnosis"@,
    }
}

impl AiTaskKind {
    pub fn as_str(&self) -> (r: &'static str)
        ensures
            r@ == task_name(*self),
    {
        match self {
            AiTaskKind::SessionDiff => "session_diff",
            AiTaskKind::FlowDiagnosis => "flow_diagnosis",
        }
    }
}

/// How much evidence may be sent, and which JSON members are secrets.
#[derive(Debug, Clone, PartialEq, Eq)]
pub struct AiContextPolicy {
    pub max_context_bytes: usize,
    pub max_string_chars: usize,
    pub secret_json_keys: Vec<String>,
}

/// The evidence as it will be sent, with its fingerprint and what was done
/// to it.
#[derive(Debug, Clone, PartialEq, Eq)]
pub struct AiContextPreview {
    pub json: String,
    pub context_fingerprint: String,
    pub byte_count: usize,
    pub redaction_count: usize,
    pub truncated: bool,
}

#[derive(Debug, Clone, PartialEq, Eq)]
pub struct AiProviderRequest {
    pub task: AiTaskKind,
    pub context_json: String,
}

#[derive(Debug, Clone, PartialEq, Eq)]
pub struct AiProviderResponse {
    pub provider: String,
    pub model: String,
    pub remote_response_id: Option<String>,
    pub output_text: String,
}

/// A service that answers the assistant's requests.
pub trait AiProvider {
    fn provider_id(&self) -> &'static str;

    fn model(&self) -> &str;
}

#[derive(Debug, Clone, PartialEq, Eq)]
pub struct AiError {
    pub code: String,
    pub message: String,
    pub recoverable: bool,
}

impl AiError {
    pub fn new(code: &str, message: &str, recoverable: bool) -> (e: Self)
        ensures
            e.code@ == code@,
            e.message@ == message@,
            e.recoverable == recoverable,
    {
        AiError { code: owned(code), message: owned(message), recoverable }
    }
}

/// The JSON member names treated as secrets unless configured otherwise.
pub open spec fn default_secret_keys() -> Seq<Seq<char>> {
    seq![
        "password"@,
        "passwd"@,
        "token"@,
        "access_token"@,
        "refresh_token"@,
        "id_token"@,
        "secret"@,
        "client_secret"@,
        "api_key"@,
        "apikey"@,
        "authorization"@,
        "cookie"@,
        "session"@,
        "session_id"@,
        "jwt"@,
        "bearer"@,
        "private_key"@,
        "credential"@,
    ]
}

pub fn default_secret_json_keys() -> (r: Vec<String>)
    ensures
        crate::order::string_views(r@) == default_secret_keys(),
{
    let mut r: Vec<String> = Vec::new();
    r.push(owned("password"));
    r.push(owned("passwd"));
    r.push(owned("token"));
    r.push(owned("access_token"));
    r.push(owned("refresh_token"));
    r.push(owned("id_token"));
    r.push(owned("secret"));
    r.push(owned("client_secret"));
    r.push(owned("api_key"));
    r.push(owned("apikey"));
    r.push(owned("authorization"));
    r.push(owned("cookie"));
    r.push(owned("session"));
    r.push(owned("session_id"));
    r.push(owned("jwt"));
    r.push(owned("bearer"));
    r.push(owned("private_key"));
    r.push(owned("credential"));
    assert(crate::order::string_views(r@) =~= default_secret_keys());
    r
}

impl Default for AiContextPolicy {
    fn default() -> (p: Self)
        ensures
            p.max_context_bytes == 120_000,
            p.max_string_chars == 12_000,
            crate::order::string_views(p.secret_json_keys@) == default_secret_keys(),
    {
        AiContextPolicy {
            max_context_bytes: 120_000,
            max_string_chars: 12_000,
            secret_json_keys: default_secret_json_keys(),
        }
    }
}

// ---------------------------------------------------------------------------
// Text helpers
// ---------------------------------------------------------------------------

pub open spec fn underscore(c: char) -> char {
    if c == '-' || c == ' ' || c == '.' {
        '_'
    } else {
        c
    }
}

/// The form in which member names are compared with the secret keys:
/// trimmed, in lower case, with `-`, ` ` and `.` written as `_`.
pub open spec fn secret_key_form(key: Seq<char>) -> Seq<char> {
    seq_lower(trim(key)).map_values(|c: char| underscore(c))
}

pub fn normalize_secret_key(key: &str) -> (r: String)
    ensures
        r@ == secret_key_form(key@),
{
    let chars = crate::text::chars_of(key);
    let trimmed = crate::text::trim_chars(&chars);
    let lower = crate::text::lower_chars(&trimmed);
    let mut out: Vec<char> = Vec::new();
    for i in 0..lower.len()
        invariant
            out@ == lower@.take(i as int).map_values(|c: char| underscore(c)),
    {
        let c = lower[i];
        let d = if c == '-' || c == ' ' || c == '.' {
            '_'
        } else {
            c
        };
        out.push(d);
        assert(lower@.take(i + 1).map_values(|c: char| underscore(c)) == lower@.take(i as int).map_values(
            |c: char| underscore(c),
        ).push(underscore(c)));
    }
    assert(lower@.take(lower@.len() as int) == lower@);
    crate::text::string_of(&out)
}

/// The note that ends a cut string.
pub open spec fn truncation_note() -> Seq<char> {
    "\n\u{2026} <truncated by Mobile API Studio> \u{2026}"@
}

/// A string cut to `max` characters, with a note where it was cut.
pub open spec fn truncate_text(s: Seq<char>, max: nat) -> Seq<char> {
    if s.len() <= max {
        s
    } else {
        s.take(max as int) + truncation_note()
    }
}

pub fn truncate_string(value: &str, max_chars: usize) -> (r: String)
    ensures
        r@ == truncate_text(value@, max_chars as nat),
{
    let chars = crate::text::chars_of(value);
    if chars.len() <= max_chars {
        return owned(value);
    }
    let mut cut = crate::text::slice_chars(&chars, 0, max_chars);
    crate::text::extend_str(&mut cut, "\n\u{2026} <truncated by Mobile API Studio> \u{2026}");
    crate::text::string_of(&cut)
}

/// The last character boundary of `bytes` at or before `i`.
pub open spec fn last_boundary(bytes: Seq<u8>, i: int) -> int
    decreases i,
{
    if i <= 0 {
        0
    } else if vstd::utf8::is_char_boundary(bytes, i) {
        i
    } else {
        last_boundary(bytes, i - 1)
    }
}

/// The longest prefix of a text that is at most `max_bytes` long in UTF-8.
pub open spec fn prefix_within(s: Seq<char>, max_bytes: nat) -> Seq<u8> {
    let bytes = vstd::utf8::encode_utf8(s);
    if bytes.len() <= max_bytes {
        bytes
    } else {
        bytes.take(last_boundary(bytes, max_bytes as int))
    }
}

pub fn safe_prefix(value: &str, max_bytes: usize) -> (r: String)
    ensures
        vstd::utf8::encode_utf8(r@) == prefix_within(value@, max_bytes as nat),
{
    let bytes = value.as_bytes();
    proof {
        vstd::utf8::encode_utf8_valid_utf8(value@);
    }
    if bytes.len() <= max_bytes {
        return owned(value);
    }
    let mut boundary = max_bytes;
    while boundary > 0 && !value.is_char_boundary(boundary)
        invariant
            boundary <= max_bytes,
            max_bytes < vstd::utf8::encode_utf8(value@).len(),
            vstd::utf8::valid_utf8(vstd::utf8::encode_utf8(value@)),
            last_boundary(vstd::utf8::encode_utf8(value@), boundary as int) == last_boundary(
                vstd::utf8::encode_utf8(value@),
                max_bytes as int,
            ),
        decreases boundary,
    {
        boundary = boundary - 1;
    }
    proof {
        vstd::utf8::is_char_boundary_start_end_of_seq(vstd::utf8::encode_utf8(value@));
    }
    let (head, _tail) = value.split_at(boundary);
    let r = owned(head);
    proof {
        vstd::utf8::encode_utf8_decode_utf8(r@);
        
    }
    r
}

/// The lower-case hexadecimal digit of a value below 16.
pub open spec fn hex_digit(d: u8) -> char {
    if d < 10 {
        ((d + 48) as u8) as char
    } else {
        ((d + 87) as u8) as char
    }
}

/// Bytes written as lower-case hexadecimal, two digits each.
pub open spec fn hex_text(bytes: Seq<u8>) -> Seq<char>
    decreases bytes.len(),
{
    if bytes.len() == 0 {
        seq![]
    } else {
        hex_text(bytes.drop_last()) + seq![hex_digit(bytes.last() / 16), hex_digit(bytes.last() % 16)]
    }
}

/// Two hexadecimal digits for every byte.
pub proof fn lemma_hex_text_len(bytes: Seq<u8>)
    ensures
        hex_text(bytes).len() == 2 * bytes.len(),
    decreases bytes.len(),
{
    if bytes.len() > 0 {
        lemma_hex_text_len(bytes.drop_last());
    }
}

fn hex_char(d: u8) -> (c: char)
    requires
        d < 16,
    ensures
        c == hex_digit(d),
{
    if d < 10 {
        ((d + 48) as u8) as char
    } else {
        ((d + 87) as u8) as char
    }
}

pub fn lower_hex(bytes: &Vec<u8>) -> (r: String)
    ensures
        r@ == hex_text(bytes@),
{
    let mut out: Vec<char> = Vec::new();
    for i in 0..bytes.len()
        invariant
            out@ == hex_text(bytes@.take(i as int)),
    {
        let b = bytes[i];
        out.push(hex_char(b / 16));
        out.push(hex_char(b % 16));
        assert(bytes@.take(i + 1).drop_last() == bytes@.take(i as int));
    }
    assert(bytes@.take(bytes@.len() as int) == bytes@);
    crate::text::string_of(&out)
}

/// What `sha2::Sha256::digest` computes for some bytes.
pub uninterp spec fn sha256_digest(bytes: Seq<u8>) -> Seq<u8>;

/// `sha2::Sha256::digest`: the SHA-256 digest of the bytes, 32 bytes long.
#[verifier::external_body]
pub(crate) fn sha256(bytes: &[u8]) -> (r: Vec<u8>)
    ensures
        r@ == sha256_digest(bytes@),
        r@.len() == 32,
{
    <sha2::Sha256 as sha2::Digest>::digest(bytes).to_vec()
}

/// The fingerprint of a text: its SHA-256 digest in hexadecimal.
pub open spec fn fingerprint_of(text: Seq<char>) -> Seq<char> {
    hex_text(sha256_digest(vstd::utf8::encode_utf8(text)))
}

pub fn fingerprint(text: &str) -> (r: String)
    ensures
        r@ == fingerprint_of(text@),
        r@.len() == 64,
{
    let digest = sha256(text.as_bytes());
    proof {
        lemma_hex_text_len(digest@);
    }
    lower_hex(&digest)
}


// ---------------------------------------------------------------------------
// Redaction of the evidence
// ---------------------------------------------------------------------------

/// A count held to the range of `usize`.
pub open spec fn capped(n: nat) -> usize {
    if n <= usize::MAX {
        n as usize
    } else {
        usize::MAX
    }
}

/// The value of a member of an object (the last one written under that
/// name, as a JSON object keeps it).
pub open spec fn member_of(members: Seq<(Seq<char>, JsonTree)>, key: Seq<char>) -> Option<JsonTree>
    decreases members.len(),
{
    if members.len() == 0 {
        None
    } else if members.last().0 == key {
        Some(members.last().1)
    } else {
        member_of(members.drop_last(), key)
    }
}

/// The `name` of an object that describes a header.
pub open spec fn header_name_of(members: Seq<(Seq<char>, JsonTree)>) -> Option<Seq<char>> {
    match member_of(members, "name"@) {
        Some(JsonTree::Str(s)) => Some(s),
        _ => None,
    }
}

/// An object with a string `name` and a `value` describes a header.
pub open spec fn looks_like_header(members: Seq<(Seq<char>, JsonTree)>) -> bool {
    header_name_of(members) is Some && member_of(members, "value"@) is Some
}

pub open spec fn item_header_name(t: JsonTree) -> Option<Seq<char>> {
    match t {
        JsonTree::Object(members) => header_name_of(members),
        _ => None,
    }
}

/// The studio's own correlation header.
pub open spec fn is_internal_name(name: Seq<char>) -> bool {
    seq_lower(trim(name)) == INTERNAL_CORRELATION_HEADER@
}

/// Headers whose values are always secret.
pub open spec fn is_sensitive_name(name: Seq<char>) -> bool {
    let l = seq_lower(trim(name));
    l == "authorization"@ || l == "proxy-authorization"@ || l == "cookie"@ || l == "set-cookie"@ || l
        == "x-api-key"@ || l == "api-key"@ || l == "x-auth-token"@ || l == "x-access-token"@
}

pub open spec fn is_container(t: JsonTree) -> bool {
    t is Object || t is Array
}

/// An array under a member whose name mentions headers holds headers.
pub open spec fn mentions_header(parent: Option<Seq<char>>) -> bool {
    parent matches Some(k) && crate::text::contains_seq(seq_lower(k), "header"@)
}

pub open spec fn redacted_text() -> JsonTree {
    JsonTree::Str("<redacted>"@)
}


// ---------------------------------------------------------------------------
// Secret parameters in query strings and URLs
// ---------------------------------------------------------------------------

/// The characters that separate the parameters of a query string or URL.
pub open spec fn is_param_separator(c: char) -> bool {
    c == '?' || c == '&' || c == '#'
}

/// Where the first parameter of a text ends: at its first separator, or at
/// its end.
pub open spec fn segment_end(s: Seq<char>) -> nat
    decreases s.len(),
{
    if s.len() == 0 {
        0
    } else if is_param_separator(s[0]) {
        0
    } else {
        1 + segment_end(s.drop_first())
    }
}

pub proof fn lemma_segment_end(s: Seq<char>)
    ensures
        segment_end(s) <= s.len(),
        segment_end(s) < s.len() ==> is_param_separator(s[segment_end(s) as int]),
        forall|k: int| 0 <= k < segment_end(s) ==> !is_param_separator(#[trigger] s[k]),
    decreases s.len(),
{
    if s.len() > 0 && !is_param_separator(s[0]) {
        lemma_segment_end(s.drop_first());
        assert forall|k: int| 0 <= k < segment_end(s) implies !is_param_separator(#[trigger] s[k]) by {
            if k > 0 {
                assert(s[k] == s.drop_first()[k - 1]);
            }
        }
    }
}

/// A parameter `key=value` whose key is a secret key keeps its key and has
/// its value redacted; any other text is kept.
pub open spec fn redact_param(seg: Seq<char>, keys: Seq<Seq<char>>) -> (Seq<char>, nat) {
    let key = before_first(seg, '=');
    if key.len() < seg.len() && keys.contains(secret_key_form(key)) {
        (key + "=<redacted>"@, 1)
    } else {
        (seg, 0)
    }
}

/// A text with the values of its secret parameters redacted, and how many
/// were.
pub open spec fn redact_params(s: Seq<char>, keys: Seq<Seq<char>>) -> (Seq<char>, nat)
    decreases s.len(),
{
    proof {
        lemma_segment_end(s);
    }
    let e = segment_end(s);
    let p = redact_param(s.take(e as int), keys);
    if e >= s.len() {
        p
    } else {
        let r = redact_params(s.skip(e + 1int), keys);
        (p.0 + seq![s[e as int]] + r.0, p.1 + r.1)
    }
}

/// The redacted document and the number of redactions: secret members and
/// sensitive header values become `<redacted>`, the studio's own header is
/// left out, strings holding JSON are redacted inside, and long strings are
/// cut. (A text never parses to a document holding a string as long as
/// itself; the last condition on the nested case only records that.)
pub open spec fn redact_tree(t: JsonTree, keys: Seq<Seq<char>>, max: nat, parent: Option<Seq<char>>) -> (JsonTree, nat)
    decreases crate::json::longest_text(t), t,
{
    match t {
        JsonTree::Object(members) => if looks_like_header(members) {
            let name = match header_name_of(members) {
                Some(n) => n,
                None => seq![],
            };
            if is_internal_name(name) {
                (
                    JsonTree::Object(
                        seq![("name"@, JsonTree::Str("<internal-header-omitted>"@)), ("value"@, JsonTree::Str("<omitted>"@))],
                    ),
                    1,
                )
            } else {
                let hide = member_of(members, "sensitive"@) == Some(JsonTree::Bool(true)) || is_sensitive_name(name);
                let r = redact_header_members(members, keys, max, hide);
                (JsonTree::Object(r.0), r.1)
            }
        } else {
            let r = redact_members(members, keys, max);
            (JsonTree::Object(r.0), r.1)
        },
        JsonTree::Array(items) => {
            let r = redact_items(items, keys, max, parent, mentions_header(parent));
            (JsonTree::Array(r.0), r.1)
        },
        JsonTree::Str(s) => match crate::json::json_parse(s) {
            Ok(v) => {
                let w = crate::json::tree_of(v);
                if is_container(w) && crate::json::longest_text(w) < s.len() {
                    let r = redact_tree(w, keys, max, parent);
                    let text = match crate::json::json_pretty(r.0) {
                        Ok(e) => e,
                        Err(_) => "<invalid-json>"@,
                    };
                    (JsonTree::Str(truncate_text(text, max)), r.1)
                } else {
                    let q = redact_params(s, keys);
                    (JsonTree::Str(truncate_text(q.0, max)), q.1)
                }
            },
            Err(_) => {
                let q = redact_params(s, keys);
                (JsonTree::Str(truncate_text(q.0, max)), q.1)
            },
        },
        _ => (t, 0),
    }
}

pub open spec fn redact_members(members: Seq<(Seq<char>, JsonTree)>, keys: Seq<Seq<char>>, max: nat) -> (Seq<(Seq<char>, JsonTree)>, nat)
    decreases crate::json::longest_in_members(members), members,
{
    if members.len() == 0 {
        (seq![], 0)
    } else {
        proof {
            crate::json::lemma_longest_in_members(members, 0);
        }
        let k = members[0].0;
        let rest = redact_members(members.drop_first(), keys, max);
        if keys.contains(secret_key_form(k)) {
            (seq![(k, redacted_text())] + rest.0, rest.1 + 1)
        } else {
            let r = redact_tree(members[0].1, keys, max, Some(k));
            (seq![(k, r.0)] + rest.0, r.1 + rest.1)
        }
    }
}

pub open spec fn redact_header_members(members: Seq<(Seq<char>, JsonTree)>, keys: Seq<Seq<char>>, max: nat, hide: bool) -> (Seq<(Seq<char>, JsonTree)>, nat)
    decreases crate::json::longest_in_members(members), members,
{
    if members.len() == 0 {
        (seq![], 0)
    } else {
        proof {
            crate::json::lemma_longest_in_members(members, 0);
        }
        let k = members[0].0;
        let rest = redact_header_members(members.drop_first(), keys, max, hide);
        if seq_lower(k) == "value"@ && hide {
            (seq![(k, redacted_text())] + rest.0, rest.1 + 1)
        } else {
            let r = redact_tree(members[0].1, keys, max, Some(k));
            (seq![(k, r.0)] + rest.0, r.1 + rest.1)
        }
    }
}

pub open spec fn redact_items(items: Seq<JsonTree>, keys: Seq<Seq<char>>, max: nat, parent: Option<Seq<char>>, headers: bool) -> (Seq<JsonTree>, nat)
    decreases crate::json::longest_in_items(items), items,
{
    if items.len() == 0 {
        (seq![], 0)
    } else {
        proof {
            crate::json::lemma_longest_in_items(items, 0);
        }
        let rest = redact_items(items.drop_first(), keys, max, parent, headers);
        if headers && (item_header_name(items[0]) matches Some(n) && is_internal_name(n)) {
            (rest.0, rest.1 + 1)
        } else {
            let r = redact_tree(items[0], keys, max, parent);
            (seq![r.0] + rest.0, r.1 + rest.1)
        }
    }
}


pub open spec fn opt_str_view(o: Option<&str>) -> Option<Seq<char>> {
    match o {
        Some(s) => Some(s@),
        None => None,
    }
}

fn add_capped(a: usize, b: usize) -> (r: usize)
    ensures
        r == capped((a + b) as nat),
{
    if a > usize::MAX - b {
        usize::MAX
    } else {
        a + b
    }
}

proof fn lemma_capped_add(x: nat, y: nat)
    ensures
        capped((capped(x) + capped(y)) as nat) == capped(x + y),
{
}

/// A text with the values of its secret parameters redacted, and how many
/// were.
fn redact_query(text: &str, keys: &Vec<String>) -> (r: (String, usize))
    ensures
        r.0@ == redact_params(text@, crate::order::string_views(keys@)).0,
        r.1 as nat == redact_params(text@, crate::order::string_views(keys@)).1,
{
    let ghost ks = crate::order::string_views(keys@);
    let v = crate::text::chars_of(text);
    let ghost s = v@;
    let mut out: Vec<char> = Vec::new();
    let mut count: usize = 0;
    let mut i: usize = 0;
    assert(s.skip(0) =~= s);
    loop
        invariant
            s == v@,
            s == text@,
            ks == crate::order::string_views(keys@),
            i <= s.len(),
            count <= i,
            redact_params(s, ks).0 == out@ + redact_params(s.skip(i as int), ks).0,
            redact_params(s, ks).1 == count + redact_params(s.skip(i as int), ks).1,
        decreases s.len() - i,
    {
        let ghost rest = s.skip(i as int);
        let mut j: usize = i;
        while j < v.len() && !(v[j] == '?' || v[j] == '&' || v[j] == '#')
            invariant
                s == v@,
                i <= j <= s.len(),
                rest == s.skip(i as int),
                forall|k: int| i <= k < j ==> !is_param_separator(#[trigger] s[k]),
            decreases s.len() - j,
        {
            j = j + 1;
        }
        proof {
            lemma_segment_end_is(rest, (j - i) as nat);
            assert(rest.take((j - i) as int) =~= s.subrange(i as int, j as int));
        }
        let seg = crate::text::slice_chars(&v, i, j);
        let key = crate::text::before_first_exec(&seg, '=');
        let ghost before = out@;
        let key_text = crate::text::string_of(&key);
        if key.len() < seg.len() && secret_key_listed(keys, key_text.as_str()) {
            crate::text::extend_chars(&mut out, &key);
            crate::text::extend_str(&mut out, "=<redacted>");
            count = count + 1;
        } else {
            crate::text::extend_chars(&mut out, &seg);
        }
        if j >= v.len() {
            proof {
                assert(redact_params(rest, ks) == redact_param(rest.take((j - i) as int), ks));
                assert(s.skip(s.len() as int).len() == 0);
            }
            return (crate::text::string_of(&out), count);
        }
        out.push(v[j]);
        proof {
            assert(rest.skip((j - i) + 1) =~= s.skip(j + 1));
            assert(rest[(j - i) as int] == s[j as int]);
            assert(out@ =~= before + redact_param(rest.take((j - i) as int), ks).0 + seq![s[j as int]]);
        }
        i = j + 1;
    }
}

proof fn lemma_segment_end_is(s: Seq<char>, e: nat)
    requires
        e <= s.len(),
        forall|k: int| 0 <= k < e ==> !is_param_separator(#[trigger] s[k]),
        e < s.len() ==> is_param_separator(s[e as int]),
    ensures
        segment_end(s) == e,
    decreases e,
{
    if e > 0 {
        assert forall|k: int| 0 <= k < e - 1 implies !is_param_separator(#[trigger] s.drop_first()[k]) by {
            assert(s.drop_first()[k] == s[k + 1]);
        }
        if e - 1 < s.drop_first().len() {
            assert(s.drop_first()[e - 1] == s[e as int]);
        }
        lemma_segment_end_is(s.drop_first(), (e - 1) as nat);
        assert(!is_param_separator(s[0]));
    }
}

/// Whether a member name is one of the secret keys (already normalized).
fn secret_key_listed(keys: &Vec<String>, key: &str) -> (r: bool)
    ensures
        r == crate::order::string_views(keys@).contains(secret_key_form(key@)),
{
    let form = normalize_secret_key(key);
    let ghost ks = crate::order::string_views(keys@);
    for i in 0..keys.len()
        invariant
            ks == crate::order::string_views(keys@),
            form@ == secret_key_form(key@),
            forall|j: int| 0 <= j < i ==> ks[j] != form@,
    {
        if crate::text::str_eq(keys[i].as_str(), form.as_str()) {
            assert(ks[i as int] == form@);
            return true;
        }
    }
    false
}

/// The index of the last member written under `key`.
fn member_lookup(members: &Vec<(String, JsonValue)>, key: &str) -> (r: Option<usize>)
    ensures
        match r {
            Some(i) => i < members@.len() && member_of(crate::json::members_of(members@), key@) == Some(
                crate::json::tree_of(members@[i as int].1),
            ) && members@[i as int].0@ == key@,
            None => member_of(crate::json::members_of(members@), key@) is None,
        },
{
    let ghost m = crate::json::members_of(members@);
    proof {
        crate::json::lemma_members_of_index(members@);
    }
    let mut i = members.len();
    assert(m.take(i as int) == m);
    while i > 0
        invariant
            i <= members@.len(),
            m == crate::json::members_of(members@),
            m.len() == members@.len(),
            forall|j: int| 0 <= j < members@.len() ==> #[trigger] m[j] == (members@[j].0@, crate::json::tree_of(members@[j].1)),
            member_of(m, key@) == member_of(m.take(i as int), key@),
        decreases i,
    {
        i = i - 1;
        assert(m.take(i + 1).drop_last() == m.take(i as int));
        assert(m.take(i + 1).last() == m[i as int]);
        if crate::text::str_eq(members[i].0.as_str(), key) {
            return Some(i);
        }
    }
    None
}

/// The name of an object describing a header, if it is one.
fn header_name(members: &Vec<(String, JsonValue)>) -> (r: Option<String>)
    ensures
        match r {
            Some(n) => header_name_of(crate::json::members_of(members@)) == Some(n@),
            None => header_name_of(crate::json::members_of(members@)) is None,
        },
{
    match member_lookup(members, "name") {
        Some(i) => match &members[i].1 {
            JsonValue::String(s) => Some(crate::text::copy_string(s)),
            _ => None,
        },
        None => None,
    }
}

fn is_internal_header(name: &str) -> (r: bool)
    ensures
        r == is_internal_name(name@),
{
    let t = crate::text::trimmed(name);
    let l = crate::text::to_lower(t.as_str());
    crate::text::str_eq(l.as_str(), INTERNAL_CORRELATION_HEADER)
}

fn is_sensitive_header(name: &str) -> (r: bool)
    ensures
        r == is_sensitive_name(name@),
{
    let t = crate::text::trimmed(name);
    let l = crate::text::to_lower(t.as_str());
    let v = l.as_str();
    crate::text::str_eq(v, "authorization") || crate::text::str_eq(v, "proxy-authorization")
        || crate::text::str_eq(v, "cookie") || crate::text::str_eq(v, "set-cookie") || crate::text::str_eq(
        v,
        "x-api-key",
    ) || crate::text::str_eq(v, "api-key") || crate::text::str_eq(v, "x-auth-token") || crate::text::str_eq(
        v,
        "x-access-token",
    )
}

fn redacted_value() -> (r: JsonValue)
    ensures
        crate::json::tree_of(r) == redacted_text(),
{
    JsonValue::String(owned("<redacted>"))
}

/// Redacts a document: what `redact_tree` describes, with the count held to
/// `usize`.
pub fn redact_value(value: &JsonValue, keys: &Vec<String>, max: usize, parent: Option<&str>) -> (r: (JsonValue, usize))
    ensures
        crate::json::tree_of(r.0) == redact_tree(
            crate::json::tree_of(*value),
            crate::order::string_views(keys@),
            max as nat,
            opt_str_view(parent),
        ).0,
        r.1 == capped(
            redact_tree(crate::json::tree_of(*value), crate::order::string_views(keys@), max as nat, opt_str_view(parent)).1,
        ),
    decreases crate::json::longest_text(crate::json::tree_of(*value)), *value,
{
    let ghost ks = crate::order::string_views(keys@);
    let ghost m = max as nat;
    match value {
        JsonValue::Object(members) => {
            let ghost mv = crate::json::members_of(members@);
            proof {
                crate::json::lemma_members_of_index(members@);
            }
            let name_index = member_lookup(members, "name");
            let value_index = member_lookup(members, "value");
            let name = header_name(members);
            let looks = name.is_some() && value_index.is_some();
            let mut out: Vec<(String, JsonValue)> = Vec::new();
            let mut count: usize = 0;
            let ghost mut g: nat = 0;
            if looks {
                let n = match name {
                    Some(n) => n,
                    None => owned(""),
                };
                if is_internal_header(n.as_str()) {
                    out.push((owned("name"), JsonValue::String(owned("<internal-header-omitted>"))));
                    out.push((owned("value"), JsonValue::String(owned("<omitted>"))));
                    proof {
                        crate::json::lemma_members_of_index(out@);
                        assert(crate::json::members_of(out@) =~= seq![("name"@, JsonTree::Str("<internal-header-omitted>"@)), ("value"@, JsonTree::Str("<omitted>"@))]);
                    }
                    return (JsonValue::Object(out), 1);
                }
                let flag = match member_lookup(members, "sensitive") {
                    Some(i) => match &members[i].1 {
                        JsonValue::Bool(b) => *b,
                        _ => false,
                    },
                    None => false,
                };
                let hide = flag || is_sensitive_header(n.as_str());
                assert(hide == (member_of(mv, "sensitive"@) == Some(JsonTree::Bool(true)) || is_sensitive_name(n@)));
                let mut i: usize = 0;
                assert(mv.skip(0) == mv);
                while i < members.len()
                    invariant
                        *value == JsonValue::Object(*members),
                        mv == crate::json::members_of(members@),
                        mv.len() == members@.len(),
                        forall|j: int| 0 <= j < members@.len() ==> #[trigger] mv[j] == (members@[j].0@, crate::json::tree_of(members@[j].1)),
                        ks == crate::order::string_views(keys@),
                        m == max as nat,
                        i <= members@.len(),
                        crate::json::members_of(out@) + redact_header_members(mv.skip(i as int), ks, m, hide).0
                            == redact_header_members(mv, ks, m, hide).0,
                        g + redact_header_members(mv.skip(i as int), ks, m, hide).1 == redact_header_members(mv, ks, m, hide).1,
                        count == capped(g),
                    decreases members@.len() - i,
                {
                    let ghost rest = mv.skip(i as int);
                    assert(rest[0] == mv[i as int]);
                    assert(rest.drop_first() == mv.skip(i + 1));
                    let key = &members[i].0;
                    let lower = crate::text::to_lower(key.as_str());
                    let ghost before = out@;
                    if crate::text::str_eq(lower.as_str(), "value") && hide {
                        out.push((crate::text::copy_string(key), redacted_value()));
                        proof {
                            crate::json::lemma_members_of_push(before, out@.last());
                            lemma_capped_add(g, 1);
                            g = g + 1;
                        }
                        count = add_capped(count, 1);
                    } else {
                        proof {
                            crate::json::lemma_longest_in_members(mv, i as int);
                            assert(decreases_to!(*value => (*value)->Object_0));
                            assert(decreases_to!(*members => members@));
                            assert(decreases_to!(members@ => members@[i as int]));
                            assert(decreases_to!(members@[i as int] => members@[i as int].1));
                        }
                        let (child, n) = redact_value(&members[i].1, keys, max, Some(key.as_str()));
                        out.push((crate::text::copy_string(key), child));
                        proof {
                            crate::json::lemma_members_of_push(before, out@.last());
                            let c = redact_tree(crate::json::tree_of(members@[i as int].1), ks, m, Some(key@)).1;
                            lemma_capped_add(g, c);
                            g = g + c;
                        }
                        count = add_capped(count, n);
                    }
                    i = i + 1;
                }
                assert(mv.skip(i as int) == Seq::<(Seq<char>, JsonTree)>::empty());
                assert(crate::json::members_of(out@) + seq![] == crate::json::members_of(out@));
                (JsonValue::Object(out), count)
            } else {
                let mut i: usize = 0;
                assert(mv.skip(0) == mv);
                while i < members.len()
                    invariant
                        *value == JsonValue::Object(*members),
                        mv == crate::json::members_of(members@),
                        mv.len() == members@.len(),
                        forall|j: int| 0 <= j < members@.len() ==> #[trigger] mv[j] == (members@[j].0@, crate::json::tree_of(members@[j].1)),
                        ks == crate::order::string_views(keys@),
                        m == max as nat,
                        i <= members@.len(),
                        crate::json::members_of(out@) + redact_members(mv.skip(i as int), ks, m).0 == redact_members(mv, ks, m).0,
                        g + redact_members(mv.skip(i as int), ks, m).1 == redact_members(mv, ks, m).1,
                        count == capped(g),
                    decreases members@.len() - i,
                {
                    let ghost rest = mv.skip(i as int);
                    assert(rest[0] == mv[i as int]);
                    assert(rest.drop_first() == mv.skip(i + 1));
                    let key = &members[i].0;
                    let ghost before = out@;
                    if secret_key_listed(keys, key.as_str()) {
                        out.push((crate::text::copy_string(key), redacted_value()));
                        proof {
                            crate::json::lemma_members_of_push(before, out@.last());
                            lemma_capped_add(g, 1);
                            g = g + 1;
                        }
                        count = add_capped(count, 1);
                    } else {
                        proof {
                            crate::json::lemma_longest_in_members(mv, i as int);
                            assert(decreases_to!(*value => (*value)->Object_0));
                            assert(decreases_to!(*members => members@));
                            assert(decreases_to!(members@ => members@[i as int]));
                            assert(decreases_to!(members@[i as int] => members@[i as int].1));
                        }
                        let (child, n) = redact_value(&members[i].1, keys, max, Some(key.as_str()));
                        out.push((crate::text::copy_string(key), child));
                        proof {
                            crate::json::lemma_members_of_push(before, out@.last());
                            let c = redact_tree(crate::json::tree_of(members@[i as int].1), ks, m, Some(key@)).1;
                            lemma_capped_add(g, c);
                            g = g + c;
                        }
                        count = add_capped(count, n);
                    }
                    i = i + 1;
                }
                assert(mv.skip(i as int) == Seq::<(Seq<char>, JsonTree)>::empty());
                assert(crate::json::members_of(out@) + seq![] == crate::json::members_of(out@));
                (JsonValue::Object(out), count)
            }
        },
        JsonValue::Array(items) => {
            let ghost iv = crate::json::trees_of(items@);
            proof {
                crate::json::lemma_trees_of_index(items@);
            }
            let headers = match parent {
                Some(k) => {
                    let l = crate::text::lower_chars(&crate::text::chars_of(k));
                    let h = crate::text::chars_of("header");
                    crate::text::contains_chars(&l, &h)
                },
                None => false,
            };
            let mut out: Vec<JsonValue> = Vec::new();
            let mut count: usize = 0;
            let ghost mut g: nat = 0;
            let mut i: usize = 0;
            assert(iv.skip(0) == iv);
            while i < items.len()
                invariant
                    *value == JsonValue::Array(*items),
                    iv == crate::json::trees_of(items@),
                    iv.len() == items@.len(),
                    forall|j: int| 0 <= j < items@.len() ==> #[trigger] iv[j] == crate::json::tree_of(items@[j]),
                    ks == crate::order::string_views(keys@),
                    m == max as nat,
                    headers == mentions_header(opt_str_view(parent)),
                    i <= items@.len(),
                    crate::json::trees_of(out@) + redact_items(iv.skip(i as int), ks, m, opt_str_view(parent), headers).0
                        == redact_items(iv, ks, m, opt_str_view(parent), headers).0,
                    g + redact_items(iv.skip(i as int), ks, m, opt_str_view(parent), headers).1 == redact_items(
                        iv,
                        ks,
                        m,
                        opt_str_view(parent),
                        headers,
                    ).1,
                    count == capped(g),
                decreases items@.len() - i,
            {
                let ghost rest = iv.skip(i as int);
                assert(rest[0] == iv[i as int]);
                assert(rest.drop_first() == iv.skip(i + 1));
                let internal = headers && match &items[i] {
                    JsonValue::Object(ms) => match header_name(ms) {
                        Some(n) => is_internal_header(n.as_str()),
                        None => false,
                    },
                    _ => false,
                };
                if internal {
                    proof {
                        lemma_capped_add(g, 1);
                        g = g + 1;
                    }
                    count = add_capped(count, 1);
                } else {
                    proof {
                        crate::json::lemma_longest_in_items(iv, i as int);
                        assert(decreases_to!(*value => (*value)->Array_0));
                        assert(decreases_to!(*items => items@));
                        assert(decreases_to!(items@ => items@[i as int]));
                    }
                    let (child, n) = redact_value(&items[i], keys, max, parent);
                    let ghost before = out@;
                    out.push(child);
                    proof {
                        crate::json::lemma_trees_of_push(before, child);
                        let c = redact_tree(crate::json::tree_of(items@[i as int]), ks, m, opt_str_view(parent)).1;
                        lemma_capped_add(g, c);
                        g = g + c;
                    }
                    count = add_capped(count, n);
                }
                i = i + 1;
            }
            assert(iv.skip(i as int) == Seq::<JsonTree>::empty());
            assert(crate::json::trees_of(out@) + seq![] == crate::json::trees_of(out@));
            (JsonValue::Array(out), count)
        },
        JsonValue::String(text) => {
            match crate::json::parse_json(text.as_str()) {
                Ok(parsed) => {
                    let container = match &parsed {
                        JsonValue::Object(_) => true,
                        JsonValue::Array(_) => true,
                        _ => false,
                    };
                    if container {
                        let (inner, n) = redact_value(&parsed, keys, max, parent);
                        let encoded = match crate::json::pretty_json(&inner) {
                            Ok(e) => e,
                            Err(_) => owned("<invalid-json>"),
                        };
                        (JsonValue::String(truncate_string(encoded.as_str(), max)), n)
                    } else {
                        let (q, n) = redact_query(text.as_str(), keys);
                        (JsonValue::String(truncate_string(q.as_str(), max)), n)
                    }
                },
                Err(_) => {
                    let (q, n) = redact_query(text.as_str(), keys);
                    (JsonValue::String(truncate_string(q.as_str(), max)), n)
                },
            }
        },
        _ => (crate::json::copy_json(value), 0),
    }
}


// ---------------------------------------------------------------------------
// Laws of redaction
// ---------------------------------------------------------------------------

proof fn lemma_hidden_header_members(members: Seq<(Seq<char>, JsonTree)>, keys: Seq<Seq<char>>, max: nat)
    ensures
        ({
            let r = redact_header_members(members, keys, max, true).0;
            &&& r.len() == members.len()
            &&& forall|i: int| 0 <= i < r.len() ==> (#[trigger] r[i]).0 == members[i].0 && (seq_lower(members[i].0)
                == "value"@ ==> r[i].1 == JsonTree::Str("<redacted>"@))
        }),
    decreases members.len(),
{
    if members.len() > 0 {
        lemma_hidden_header_members(members.drop_first(), keys, max);
        let r = redact_header_members(members, keys, max, true).0;
        let rest = redact_header_members(members.drop_first(), keys, max, true).0;
        assert forall|i: int| 0 <= i < r.len() implies (#[trigger] r[i]).0 == members[i].0 && (seq_lower(members[i].0)
            == "value"@ ==> r[i].1 == JsonTree::Str("<redacted>"@)) by {
            if i > 0 {
                assert(r[i] == rest[i - 1]);
                assert(members.drop_first()[i - 1] == members[i]);
            }
        }
    }
}

/// A header object whose name (trimmed, in any ASCII case) is one of the
/// known secret headers keeps its members' names, and each of its `value`
/// members (in any ASCII case) reads `<redacted>`.
pub proof fn secret_header_values_are_redacted(
    members: Seq<(Seq<char>, JsonTree)>,
    keys: Seq<Seq<char>>,
    max: nat,
    parent: Option<Seq<char>>,
)
    requires
        looks_like_header(members),
        ({
            let n = seq_lower(trim(header_name_of(members)->0));
            ||| n == "authorization"@
            ||| n == "proxy-authorization"@
            ||| n == "cookie"@
            ||| n == "set-cookie"@
            ||| n == "x-api-key"@
            ||| n == "api-key"@
            ||| n == "x-auth-token"@
            ||| n == "x-access-token"@
        }),
    ensures
        redact_tree(JsonTree::Object(members), keys, max, parent).0 matches JsonTree::Object(out) && out.len()
            == members.len() && forall|i: int| 0 <= i < out.len() ==> (#[trigger] out[i]).0 == members[i].0 && (
        seq_lower(members[i].0) == "value"@ ==> out[i].1 == JsonTree::Str("<redacted>"@)),
{
    lemma_hidden_header_members(members, keys, max);
    reveal_strlit("x-mobile-api-studio-request-id");
    reveal_strlit("authorization");
    reveal_strlit("proxy-authorization");
    reveal_strlit("cookie");
    reveal_strlit("set-cookie");
    reveal_strlit("x-api-key");
    reveal_strlit("api-key");
    reveal_strlit("x-auth-token");
    reveal_strlit("x-access-token");
    let n = seq_lower(trim(header_name_of(members)->0));
    assert(n != INTERNAL_CORRELATION_HEADER@) by {
        if n == INTERNAL_CORRELATION_HEADER@ {
            assert(n.len() == 30);
        }
    }
}

/// A header object flagged `"sensitive": true` has each of its `value`
/// members redacted, unless it is the studio's own correlation header.
pub proof fn flagged_header_values_are_redacted(
    members: Seq<(Seq<char>, JsonTree)>,
    keys: Seq<Seq<char>>,
    max: nat,
    parent: Option<Seq<char>>,
)
    requires
        looks_like_header(members),
        member_of(members, "sensitive"@) == Some(JsonTree::Bool(true)),
        seq_lower(trim(header_name_of(members)->0)) != "x-mobile-api-studio-request-id"@,
    ensures
        redact_tree(JsonTree::Object(members), keys, max, parent).0 matches JsonTree::Object(out) && out.len()
            == members.len() && forall|i: int| 0 <= i < out.len() ==> (#[trigger] out[i]).0 == members[i].0 && (
        seq_lower(members[i].0) == "value"@ ==> out[i].1 == JsonTree::Str("<redacted>"@)),
{
    lemma_hidden_header_members(members, keys, max);
}

/// The studio's own correlation header never reaches the assistant: its
/// object is replaced by one that names it omitted, and counted.
pub proof fn correlation_header_is_omitted(
    members: Seq<(Seq<char>, JsonTree)>,
    keys: Seq<Seq<char>>,
    max: nat,
    parent: Option<Seq<char>>,
)
    requires
        looks_like_header(members),
        seq_lower(trim(header_name_of(members)->0)) == "x-mobile-api-studio-request-id"@,
    ensures
        redact_tree(JsonTree::Object(members), keys, max, parent) == (
            JsonTree::Object(
                seq![("name"@, JsonTree::Str("<internal-header-omitted>"@)), ("value"@, JsonTree::Str("<omitted>"@))],
            ),
            1nat,
        ),
{
}

proof fn lemma_secret_members(members: Seq<(Seq<char>, JsonTree)>, keys: Seq<Seq<char>>, max: nat)
    ensures
        ({
            let r = redact_members(members, keys, max).0;
            &&& r.len() == members.len()
            &&& forall|i: int| 0 <= i < r.len() ==> (#[trigger] r[i]).0 == members[i].0 && (keys.contains(
                secret_key_form(members[i].0),
            ) ==> r[i].1 == JsonTree::Str("<redacted>"@))
        }),
    decreases members.len(),
{
    if members.len() > 0 {
        lemma_secret_members(members.drop_first(), keys, max);
        let r = redact_members(members, keys, max).0;
        let rest = redact_members(members.drop_first(), keys, max).0;
        assert forall|i: int| 0 <= i < r.len() implies (#[trigger] r[i]).0 == members[i].0 && (keys.contains(
            secret_key_form(members[i].0),
        ) ==> r[i].1 == JsonTree::Str("<redacted>"@)) by {
            if i > 0 {
                assert(r[i] == rest[i - 1]);
                assert(members.drop_first()[i - 1] == members[i]);
            }
        }
    }
}

/// In an object that does not describe a header, each member whose name,
/// trimmed, in lower case and with `-`, ` ` and `.` read as `_`, is one of
/// the secret keys reads `<redacted>`; every member keeps its name.
pub proof fn secret_members_are_redacted(
    members: Seq<(Seq<char>, JsonTree)>,
    keys: Seq<Seq<char>>,
    max: nat,
    parent: Option<Seq<char>>,
    i: int,
)
    requires
        !looks_like_header(members),
        0 <= i < members.len(),
        keys.contains(seq_lower(trim(members[i].0)).map_values(|c: char| if c == '-' || c == ' ' || c == '.' {
            '_'
        } else {
            c
        })),
    ensures
        redact_tree(JsonTree::Object(members), keys, max, parent).0 matches JsonTree::Object(out) && out.len()
            == members.len() && out[i].0 == members[i].0 && out[i].1 == JsonTree::Str("<redacted>"@),
{
    lemma_secret_members(members, keys, max);
    assert(secret_key_form(members[i].0) =~= seq_lower(trim(members[i].0)).map_values(
        |c: char| if c == '-' || c == ' ' || c == '.' {
            '_'
        } else {
            c
        },
    ));
}

// ---------------------------------------------------------------------------
// The preview
// ---------------------------------------------------------------------------

pub open spec fn normalized_keys(keys: Seq<Seq<char>>) -> Seq<Seq<char>> {
    keys.map_values(|k: Seq<char>| secret_key_form(k))
}

/// What is sent instead of evidence that is too large: that it was cut,
/// how large it was, and its first bytes.
pub open spec fn truncation_document(original_bytes: nat, preview: Seq<char>) -> JsonTree {
    JsonTree::Object(
        seq![
            ("contextTruncated"@, JsonTree::Bool(true)),
            ("originalSanitizedBytes"@, JsonTree::Number(crate::text::decimal(original_bytes))),
            ("sanitizedPreview"@, JsonTree::Str(preview)),
        ],
    )
}

pub open spec fn saturating_sub(a: nat, b: nat) -> nat {
    if a >= b {
        (a - b) as nat
    } else {
        0
    }
}

/// The text sent in place of evidence that is too large, keeping its first
/// `keep` bytes: where the document is still larger than `max_bytes` (its
/// text escapes the kept bytes), the bytes it is over are cut from what is
/// kept, and again, until it fits or nothing is kept.
pub open spec fn truncated_text(text: Seq<char>, original: nat, max_bytes: nat, keep: nat) -> Result<Seq<char>, Seq<char>>
    decreases keep,
{
    match crate::json::json_pretty(truncation_document(original, vstd::utf8::decode_utf8(prefix_within(text, keep)))) {
        Err(e) => Err(e),
        Ok(cut) => {
            let n = vstd::utf8::encode_utf8(cut).len();
            if n <= max_bytes || keep == 0 {
                Ok(cut)
            } else {
                truncated_text(text, original, max_bytes, saturating_sub(keep, (n - max_bytes) as nat))
            }
        },
    }
}

/// The document sent when even none of the evidence can be kept.
pub open spec fn empty_truncation(original: nat) -> Result<Seq<char>, Seq<char>> {
    crate::json::json_pretty(truncation_document(original, Seq::empty()))
}

/// A truncated text fits in `max_bytes`, unless it is the document that
/// keeps nothing of the evidence.
pub proof fn lemma_truncated_text_fits(text: Seq<char>, original: nat, max_bytes: nat, keep: nat)
    ensures
        truncated_text(text, original, max_bytes, keep) matches Ok(cut) ==> vstd::utf8::encode_utf8(cut).len() <= max_bytes
            || empty_truncation(original) == Ok::<Seq<char>, Seq<char>>(cut),
    decreases keep,
{
    let bytes = vstd::utf8::encode_utf8(text);
    if keep == 0 {
        assert(prefix_within(text, 0) =~= Seq::<u8>::empty());
        assert(vstd::utf8::decode_utf8(Seq::<u8>::empty()) =~= Seq::<char>::empty()) by {
            vstd::utf8::encode_utf8_decode_utf8(Seq::<char>::empty());
            assert(vstd::utf8::encode_utf8(Seq::<char>::empty()) =~= Seq::<u8>::empty()) by {
                reveal_with_fuel(vstd::utf8::encode_utf8, 2);
            }
        }
    } else {
        match crate::json::json_pretty(truncation_document(original, vstd::utf8::decode_utf8(prefix_within(text, keep)))) {
            Err(_) => {},
            Ok(cut) => {
                let n = vstd::utf8::encode_utf8(cut).len();
                if !(n <= max_bytes) {
                    lemma_truncated_text_fits(text, original, max_bytes, saturating_sub(keep, (n - max_bytes) as nat));
                }
            },
        }
    }
}

/// The evidence as sent (its text, the number of redactions and whether it
/// was cut), or the text of the error the JSON writer reported.
pub open spec fn context_of(value: JsonTree, keys: Seq<Seq<char>>, max_bytes: nat, max_chars: nat) -> Result<(Seq<char>, nat, bool), Seq<char>> {
    let r = redact_tree(value, normalized_keys(keys), max_chars, None);
    match crate::json::json_pretty(r.0) {
        Err(e) => Err(e),
        Ok(text) => {
            let len = vstd::utf8::encode_utf8(text).len();
            if len > max_bytes {
                match truncated_text(text, len, max_bytes, saturating_sub(max_bytes, 256)) {
                    Ok(cut) => Ok((cut, r.1, true)),
                    Err(e) => Err(e),
                }
            } else {
                Ok((text, r.1, false))
            }
        },
    }
}

/// The text of the document sent in place of evidence of `original` bytes,
/// keeping its first `keep` bytes.
fn truncation_text(text: &str, original: usize, keep: usize) -> (r: Result<String, String>)
    ensures
        match crate::json::json_pretty(
            truncation_document(original as nat, vstd::utf8::decode_utf8(prefix_within(text@, keep as nat))),
        ) {
            Ok(c) => r matches Ok(t) && t@ == c,
            Err(e) => r matches Err(m) && m@ == e,
        },
{
    let preview = safe_prefix(text, keep);
    proof {
        vstd::utf8::encode_utf8_decode_utf8(preview@);
    }
    let mut members: Vec<(String, JsonValue)> = Vec::new();
    members.push((owned("contextTruncated"), JsonValue::Bool(true)));
    members.push((owned("originalSanitizedBytes"), JsonValue::Number(crate::text::decimal_string(original as u64))));
    members.push((owned("sanitizedPreview"), JsonValue::String(preview)));
    let doc = JsonValue::Object(members);
    proof {
        crate::json::lemma_members_of_index(members@);
        assert(crate::json::members_of(members@) =~= seq![
            ("contextTruncated"@, JsonTree::Bool(true)),
            ("originalSanitizedBytes"@, JsonTree::Number(crate::text::decimal(original as nat))),
            ("sanitizedPreview"@, JsonTree::Str(preview@)),
        ]);
    }
    crate::json::pretty_json(&doc)
}

/// The text sent in place of evidence too large to send, as
/// `truncated_text` describes it.
fn fit_truncation(text: &str, original: usize, max_bytes: usize, keep: usize) -> (r: Result<String, String>)
    ensures
        match truncated_text(text@, original as nat, max_bytes as nat, keep as nat) {
            Ok(c) => r matches Ok(t) && t@ == c,
            Err(e) => r matches Err(m) && m@ == e,
        },
{
    let mut k = keep;
    loop
        invariant
            truncated_text(text@, original as nat, max_bytes as nat, k as nat) == truncated_text(
                text@,
                original as nat,
                max_bytes as nat,
                keep as nat,
            ),
        decreases k,
    {
        let attempt = match truncation_text(text, original, k) {
            Ok(t) => t,
            Err(message) => {
                return Err(message);
            },
        };
        let n = attempt.as_str().as_bytes().len();
        if n <= max_bytes || k == 0 {
            return Ok(attempt);
        }
        let over = n - max_bytes;
        k = if k > over {
            k - over
        } else {
            0
        };
    }
}

fn serialize_failed(message: &str) -> (e: AiError)
    ensures
        e.code@ == "ai_context_serialize_failed"@,
        e.message@ == message@,
        e.recoverable,
{
    AiError::new("ai_context_serialize_failed", message, true)
}

/// Redacts the evidence, cuts it to the size the policy allows, and
/// fingerprints the text that would be sent.
pub fn build_context_preview(value: &JsonValue, policy: &AiContextPolicy) -> (r: Result<AiContextPreview, AiError>)
    ensures
        match context_of(
            crate::json::tree_of(*value),
            crate::order::string_views(policy.secret_json_keys@),
            policy.max_context_bytes as nat,
            policy.max_string_chars as nat,
        ) {
            Ok((json, n, cut)) => r matches Ok(p) && p.json@ == json && p.context_fingerprint@ == fingerprint_of(json)
                && p.byte_count == vstd::utf8::encode_utf8(json).len() && p.redaction_count == capped(n)
                && p.truncated == cut,
            Err(message) => r matches Err(e) && e.code@ == "ai_context_serialize_failed"@ && e.message@ == message
                && e.recoverable,
        },
        r matches Ok(p) ==> p.context_fingerprint@.len() == 64,
        r matches Ok(p) ==> p.byte_count <= policy.max_context_bytes || (p.truncated && exists|n: nat|
            empty_truncation(n) == Ok::<Seq<char>, Seq<char>>(#[trigger] p.json@)),
{
    let ghost pk = crate::order::string_views(policy.secret_json_keys@);
    let mut keys: Vec<String> = Vec::new();
    for i in 0..policy.secret_json_keys.len()
        invariant
            pk == crate::order::string_views(policy.secret_json_keys@),
            crate::order::string_views(keys@) == normalized_keys(pk.take(i as int)),
    {
        let k = normalize_secret_key(policy.secret_json_keys[i].as_str());
        let ghost before = crate::order::string_views(keys@);
        keys.push(k);
        assert(crate::order::string_views(keys@) == before.push(k@));
        assert(normalized_keys(pk.take(i + 1)) == normalized_keys(pk.take(i as int)).push(
            secret_key_form(pk[i as int]),
        ));
    }
    assert(pk.take(pk.len() as int) == pk);
    let (sanitized, redactions) = redact_value(value, &keys, policy.max_string_chars, None);
    let text = match crate::json::pretty_json(&sanitized) {
        Ok(t) => t,
        Err(message) => {
            return Err(serialize_failed(message.as_str()));
        },
    };
    let length = text.as_str().as_bytes().len();
    if length > policy.max_context_bytes {
        let limit = if policy.max_context_bytes >= 256 {
            policy.max_context_bytes - 256
        } else {
            0
        };
        let cut = match fit_truncation(text.as_str(), length, policy.max_context_bytes, limit) {
            Ok(t) => t,
            Err(message) => {
                return Err(serialize_failed(message.as_str()));
            },
        };
        proof {
            lemma_truncated_text_fits(text@, length as nat, policy.max_context_bytes as nat, limit as nat);
        }
        let byte_count = cut.as_str().as_bytes().len();
        let context_fingerprint = fingerprint(cut.as_str());
        Ok(AiContextPreview { json: cut, context_fingerprint, byte_count, redaction_count: redactions, truncated: true })
    } else {
        let context_fingerprint = fingerprint(text.as_str());
        Ok(AiContextPreview { json: text, context_fingerprint, byte_count: length, redaction_count: redactions, truncated: false })
    }
}


/// The index of the last member written under `key`.
pub fn member_lookup_pub(members: &Vec<(String, JsonValue)>, key: &str) -> (r: Option<usize>)
    ensures
        match r {
            Some(i) => i < members@.len() && member_of(crate::json::members_of(members@), key@) == Some(
                crate::json::tree_of(members@[i as int].1),
            ) && members@[i as int].0@ == key@,
            None => member_of(crate::json::members_of(members@), key@) is None,
        },
{
    member_lookup(members, key)
}

} // verus!
