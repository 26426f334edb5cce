//! Mock rules and response fixtures: which captured requests a rule
//! answers, the order in which rules apply, and how fixtures are checked
//! and made from captured responses.
use vstd::prelude::*;

use crate::endpoint::path_template;
use crate::json::JsonValue;
use crate::model::{AppError, BodyRef, FlowDetail, FlowSummary, HeaderValue};
use crate::order::{seq_lt, lemma_seq_lt_transitive, lemma_seq_lt_irreflexive};
use crate::portable::{base64_decoded, base64_encoded, decode_base64, encode_base64};
use crate::text::{
    before_first, before_first_exec, chars_of, copy_opt_string, copy_string, eq_ignore_case, extend_str,
    owned, seq_lower, string_of, trim, trimmed,
};

verus! {

pub const MOCK_SCHEMA_VERSION: u16 = 1;

pub const MOCK_FIXTURE_SCHEMA_VERSION: u16 = 1;

#[derive(Debug, Clone, Copy, PartialEq, Eq, Structural)]
pub enum MockPathMatch {
    Exact,
    Normalized,
}

#[derive(Debug, Clone, Copy, PartialEq, Eq, Structural)]
pub enum MockFailureMode {
    NoFailure,
    Drop,
    Timeout,
}

impl Default for MockFailureMode {
    fn default() -> (m: Self)
        ensures
            m == MockFailureMode::NoFailure,
    {
        MockFailureMode::NoFailure
    }
}

#[derive(Debug, Clone, PartialEq, Eq)]
pub struct MockHeaderMutation {
    pub name: String,
    pub value: Option<String>,
    pub remove: bool,
}

/// A change to the JSON body of a mocked response, at a JSON pointer.
pub struct MockJsonMutation {
    pub pointer: String,
    pub value: Option<JsonValue>,
    pub remove: bool,
}

#[derive(Debug, Clone, Copy, PartialEq, Eq, Structural)]
pub enum MockBodyEncoding {
    Text,
    Base64,
}

#[derive(Debug, Clone, PartialEq, Eq)]
pub struct MockBodyOverride {
    pub content_type: Option<String>,
    pub encoding: MockBodyEncoding,
    pub data: String,
}

/// A rule that answers matching requests with a mocked response.
pub struct MockRule {
    pub schema_version: u16,
    pub id: String,
    pub name: String,
    pub enabled: bool,
    pub priority: i64,
    pub method: Option<String>,
    pub host: Option<String>,
    pub path_pattern: String,
    pub path_match: MockPathMatch,
    pub status_code: Option<u16>,
    pub response_headers: Vec<MockHeaderMutation>,
    pub response_body: Option<MockBodyOverride>,
    pub json_mutations: Vec<MockJsonMutation>,
    pub latency_ms: Option<u64>,
    pub failure_mode: MockFailureMode,
    pub request_breakpoint: bool,
    pub response_breakpoint: bool,
    pub source_flow_id: Option<String>,
    pub created_at: String,
    pub updated_at: String,
}

/// The rules the capture engine applies, and whether mocking is on.
pub struct MockRulesDocument {
    pub schema_version: u16,
    pub enabled: bool,
    pub rules: Vec<MockRule>,
}

// ---------------------------------------------------------------------------
// Matching
// ---------------------------------------------------------------------------

/// A rule answers a flow when it is enabled, its method and host (where it
/// names them) equal the flow's without regard to ASCII case, and its path
/// pattern equals the flow's path without the query (exact matching) or
/// the template of the flow's path (normalized matching).
pub open spec fn rule_matches(rule: MockRule, flow: FlowSummary) -> bool {
    &&& rule.enabled
    &&& (rule.method matches Some(m) ==> seq_lower(m@) == seq_lower(flow.method@))
    &&& (rule.host matches Some(h) ==> seq_lower(h@) == seq_lower(flow.host@))
    &&& match rule.path_match {
        MockPathMatch::Exact => rule.path_pattern@ == before_first(flow.path@, '?'),
        MockPathMatch::Normalized => path_template(flow.path@) == rule.path_pattern@,
    }
}

/// A rule that names a host answers no flow sent to another host (the
/// hosts compared without regard to ASCII case).
pub proof fn rule_for_another_host_does_not_match(rule: MockRule, flow: FlowSummary)
    requires
        rule.host is Some,
        seq_lower(rule.host->0@) != seq_lower(flow.host@),
    ensures
        !rule_matches(rule, flow),
{
}

/// A rule that names a method answers no flow with another method (the
/// methods compared without regard to ASCII case).
pub proof fn rule_for_another_method_does_not_match(rule: MockRule, flow: FlowSummary)
    requires
        rule.method is Some,
        seq_lower(rule.method->0@) != seq_lower(flow.method@),
    ensures
        !rule_matches(rule, flow),
{
}

/// An enabled rule that names neither method nor host answers, with exact
/// matching, exactly the flows whose path without its query is its
/// pattern, and with normalized matching, exactly the flows whose path
/// template is its pattern.
pub proof fn rule_paths_decide_the_match(rule: MockRule, flow: FlowSummary)
    requires
        rule.enabled,
        rule.method is None,
        rule.host is None,
    ensures
        rule.path_match == MockPathMatch::Exact ==> (rule_matches(rule, flow) <==> rule.path_pattern@ == before_first(
            flow.path@,
            '?',
        )),
        rule.path_match == MockPathMatch::Normalized ==> (rule_matches(rule, flow) <==> rule.path_pattern@
            == path_template(flow.path@)),
{
}

/// A disabled rule answers no flow.
pub proof fn disabled_rule_does_not_match(rule: MockRule, flow: FlowSummary)
    requires
        !rule.enabled,
    ensures
        !rule_matches(rule, flow),
{
}

impl MockRule {
    pub fn matches_flow(&self, flow: &FlowSummary) -> (r: bool)
        ensures
            r == rule_matches(*self, *flow),
    {
        if !self.enabled {
            return false;
        }
        match &self.method {
            Some(m) => {
                if !eq_ignore_case(m.as_str(), flow.method.as_str()) {
                    return false;
                }
            },
            None => {},
        }
        match &self.host {
            Some(h) => {
                if !eq_ignore_case(h.as_str(), flow.host.as_str()) {
                    return false;
                }
            },
            None => {},
        }
        match self.path_match {
            MockPathMatch::Exact => {
                let path = before_first_exec(&chars_of(flow.path.as_str()), '?');
                crate::text::chars_eq(&chars_of(self.path_pattern.as_str()), &path)
            },
            MockPathMatch::Normalized => {
                let template = crate::endpoint::normalized_path_for_flow(flow);
                crate::text::str_eq(template.as_str(), self.path_pattern.as_str())
            },
        }
    }
}

// ---------------------------------------------------------------------------
// The active rules
// ---------------------------------------------------------------------------

/// Rules apply by priority, then the older first, then by id.
pub open spec fn rule_before(a: MockRule, b: MockRule) -> bool {
    ||| a.priority < b.priority
    ||| a.priority == b.priority && seq_lt(a.created_at@, b.created_at@)
    ||| a.priority == b.priority && a.created_at@ == b.created_at@ && seq_lt(a.id@, b.id@)
}

pub open spec fn enabled_rules(s: Seq<MockRule>) -> Seq<MockRule>
    decreases s.len(),
{
    if s.len() == 0 {
        s
    } else if s.last().enabled {
        enabled_rules(s.drop_last()).push(s.last())
    } else {
        enabled_rules(s.drop_last())
    }
}

pub open spec fn rule_insertion_index(s: Seq<MockRule>, x: MockRule) -> int
    decreases s.len(),
{
    if s.len() == 0 {
        0
    } else if rule_before(x, s[0]) {
        0
    } else {
        1 + rule_insertion_index(s.drop_first(), x)
    }
}

/// The rules in the order they apply; rules that tie keep the order they
/// came in (a stable sort).
pub open spec fn ordered_rules(s: Seq<MockRule>) -> Seq<MockRule>
    decreases s.len(),
{
    if s.len() == 0 {
        s
    } else {
        let rest = ordered_rules(s.drop_last());
        rest.insert(rule_insertion_index(rest, s.last()), s.last())
    }
}

proof fn lemma_rule_insertion_index(s: Seq<MockRule>, x: MockRule, j: int)
    requires
        0 <= j <= s.len(),
        forall|m: int| 0 <= m < j ==> !rule_before(x, #[trigger] s[m]),
        j == s.len() || rule_before(x, s[j]),
    ensures
        rule_insertion_index(s, x) == j,
    decreases j,
{
    if j > 0 {
        assert(!rule_before(x, s[0]));
        let t = s.drop_first();
        assert forall|m: int| 0 <= m < j - 1 implies !rule_before(x, #[trigger] t[m]) by {
            assert(t[m] == s[m + 1]);
        }
        if j < s.len() {
            assert(t[j - 1] == s[j]);
        }
        lemma_rule_insertion_index(t, x, j - 1);
    }
}

fn applies_before(a: &MockRule, b: &MockRule) -> (r: bool)
    ensures
        r == rule_before(*a, *b),
{
    if a.priority != b.priority {
        return a.priority < b.priority;
    }
    if crate::order::str_lt(a.created_at.as_str(), b.created_at.as_str()) {
        return true;
    }
    crate::text::str_eq(a.created_at.as_str(), b.created_at.as_str()) && crate::order::str_lt(
        a.id.as_str(),
        b.id.as_str(),
    )
}

impl MockRulesDocument {
    /// The document the capture engine reads: the enabled rules, in the
    /// order they apply.
    pub fn active(rules: Vec<MockRule>, enabled: bool) -> (d: Self)
        ensures
            d.schema_version == MOCK_SCHEMA_VERSION,
            d.enabled == enabled,
            d.rules@ == ordered_rules(enabled_rules(rules@)),
    {
        let ghost orig = rules@;
        let mut rules = rules;
        let mut kept: Vec<MockRule> = Vec::new();
        let ghost mut k: int = 0;
        while rules.len() > 0
            invariant
                0 <= k <= orig.len(),
                rules@ == orig.skip(k),
                kept@ == enabled_rules(orig.take(k)),
            decreases rules@.len(),
        {
            let ghost before = rules@;
            let r = rules.remove(0);
            proof {
                assert(k < orig.len());
                assert(orig.skip(k)[0] == r);
                assert(rules@ =~= orig.skip(k + 1));
                assert(orig.take(k + 1).drop_last() == orig.take(k));
                assert(orig.take(k + 1).last() == r);
                k = k + 1;
            }
            if r.enabled {
                kept.push(r);
            }
        }
        assert(orig.take(k) == orig);
        let ghost filtered = kept@;
        let mut out: Vec<MockRule> = Vec::new();
        let ghost mut n: int = 0;
        while kept.len() > 0
            invariant
                0 <= n <= filtered.len(),
                kept@ == filtered.skip(n),
                out@ == ordered_rules(filtered.take(n)),
            decreases kept@.len(),
        {
            let x = kept.remove(0);
            proof {
                assert(n < filtered.len());
                assert(filtered.skip(n)[0] == x);
                assert(kept@ =~= filtered.skip(n + 1));
                assert(filtered.take(n + 1).drop_last() == filtered.take(n));
                assert(filtered.take(n + 1).last() == x);
            }
            let mut j: usize = 0;
            while j < out.len() && !applies_before(&x, &out[j])
                invariant
                    j <= out@.len(),
                    forall|m: int| 0 <= m < j ==> !rule_before(x, #[trigger] out@[m]),
                decreases out@.len() - j,
            {
                j = j + 1;
            }
            proof {
                lemma_rule_insertion_index(out@, x, j as int);
                n = n + 1;
            }
            out.insert(j, x);
        }
        assert(filtered.take(n) == filtered);
        MockRulesDocument { schema_version: MOCK_SCHEMA_VERSION, enabled, rules: out }
    }
}

/// No rule comes after one that should apply later.
pub open spec fn applies_in_order(s: Seq<MockRule>) -> bool {
    forall|i: int, j: int| 0 <= i < j < s.len() ==> !rule_before(#[trigger] s[j], #[trigger] s[i])
}

proof fn lemma_rule_before_transitive(a: MockRule, b: MockRule, c: MockRule)
    requires
        rule_before(a, b),
        rule_before(b, c),
    ensures
        rule_before(a, c),
{
    if a.priority == b.priority && b.priority == c.priority {
        if seq_lt(a.created_at@, b.created_at@) && seq_lt(b.created_at@, c.created_at@) {
            lemma_seq_lt_transitive(a.created_at@, b.created_at@, c.created_at@);
        } else if a.created_at@ == b.created_at@ && b.created_at@ == c.created_at@ {
            lemma_seq_lt_transitive(a.id@, b.id@, c.id@);
        }
    }
}

proof fn lemma_rule_insertion_bounds(s: Seq<MockRule>, x: MockRule)
    ensures
        0 <= rule_insertion_index(s, x) <= s.len(),
        forall|m: int| 0 <= m < rule_insertion_index(s, x) ==> !rule_before(x, #[trigger] s[m]),
        rule_insertion_index(s, x) < s.len() ==> rule_before(x, s[rule_insertion_index(s, x)]),
    decreases s.len(),
{
    if s.len() > 0 && !rule_before(x, s[0]) {
        let t = s.drop_first();
        lemma_rule_insertion_bounds(t, x);
        assert forall|m: int| 0 <= m < rule_insertion_index(s, x) implies !rule_before(x, #[trigger] s[m]) by {
            if m > 0 {
                assert(s[m] == t[m - 1]);
            }
        }
        if rule_insertion_index(s, x) < s.len() {
            assert(s[rule_insertion_index(s, x)] == t[rule_insertion_index(t, x)]);
        }
    }
}

proof fn lemma_rule_insert_in_order(s: Seq<MockRule>, x: MockRule)
    requires
        applies_in_order(s),
    ensures
        applies_in_order(s.insert(rule_insertion_index(s, x), x)),
        s.insert(rule_insertion_index(s, x), x).to_multiset() == s.to_multiset().insert(x),
{
    lemma_rule_insertion_bounds(s, x);
    let p = rule_insertion_index(s, x);
    let r = s.insert(p, x);
    assert forall|i: int, j: int| 0 <= i < j < r.len() implies !rule_before(#[trigger] r[j], #[trigger] r[i]) by {
        if j < p {
            assert(r[i] == s[i] && r[j] == s[j]);
        } else if j == p {
            assert(r[i] == s[i]);
        } else if i == p {
            assert(r[j] == s[j - 1]);
            if rule_before(s[j - 1], x) {
                lemma_rule_before_transitive(s[j - 1], x, s[p]);
                if j - 1 == p {
                    lemma_seq_lt_irreflexive(s[p].created_at@);
                    lemma_seq_lt_irreflexive(s[p].id@);
                }
            }
        } else if i < p {
            assert(r[i] == s[i] && r[j] == s[j - 1]);
        } else {
            assert(r[i] == s[i - 1] && r[j] == s[j - 1]);
        }
    }
    vstd::seq_lib::to_multiset_insert(s, p, x);
}

proof fn lemma_ordered_rules(s: Seq<MockRule>)
    ensures
        applies_in_order(ordered_rules(s)),
        ordered_rules(s).to_multiset() == s.to_multiset(),
    decreases s.len(),
{
    if s.len() > 0 {
        lemma_ordered_rules(s.drop_last());
        lemma_rule_insert_in_order(ordered_rules(s.drop_last()), s.last());
        vstd::seq_lib::to_multiset_build(s.drop_last(), s.last());
        assert(s.drop_last().push(s.last()) == s);
    }
}

/// The active rules are the enabled ones, each as often as it was given,
/// and they apply lowest priority number first; among rules of equal
/// priority, none created later comes before one created earlier.
pub proof fn active_rules_apply_by_priority(rules: Seq<MockRule>)
    ensures
        forall|i: int, j: int| 0 <= i < j < ordered_rules(enabled_rules(rules)).len() ==> (#[trigger] ordered_rules(
            enabled_rules(rules),
        )[i]).priority <= (#[trigger] ordered_rules(enabled_rules(rules))[j]).priority,
        forall|i: int, j: int| 0 <= i < j < ordered_rules(enabled_rules(rules)).len() && (#[trigger] ordered_rules(
            enabled_rules(rules),
        )[i]).priority == (#[trigger] ordered_rules(enabled_rules(rules))[j]).priority ==> !seq_lt(
            ordered_rules(enabled_rules(rules))[j].created_at@,
            ordered_rules(enabled_rules(rules))[i].created_at@,
        ),
        forall|r: MockRule| #[trigger] ordered_rules(enabled_rules(rules)).to_multiset().count(r) == if r.enabled {
            rules.to_multiset().count(r)
        } else {
            0
        },
{
    lemma_ordered_rules(enabled_rules(rules));
    lemma_enabled_rules(rules);
    let o = ordered_rules(enabled_rules(rules));
    assert forall|i: int, j: int| 0 <= i < j < o.len() implies (#[trigger] o[i]).priority <= (#[trigger] o[j]).priority by {
        assert(!rule_before(o[j], o[i]));
    }
    assert forall|i: int, j: int| 0 <= i < j < o.len() && (#[trigger] o[i]).priority == (#[trigger] o[j]).priority implies !seq_lt(
        o[j].created_at@,
        o[i].created_at@,
    ) by {
        assert(!rule_before(o[j], o[i]));
    }
}

proof fn lemma_enabled_rules(s: Seq<MockRule>)
    ensures
        forall|i: int| 0 <= i < enabled_rules(s).len() ==> (#[trigger] enabled_rules(s)[i]).enabled,
        forall|r: MockRule| r.enabled ==> enabled_rules(s).to_multiset().count(r) == s.to_multiset().count(r),
        forall|r: MockRule| !r.enabled ==> enabled_rules(s).to_multiset().count(r) == 0,
    decreases s.len(),
{
    broadcast use vstd::multiset::group_multiset_axioms;
    if s.len() == 0 {
        broadcast use vstd::seq_lib::group_to_multiset_ensures;
        assert forall|r: MockRule| s.to_multiset().count(r) == 0 by {
            assert(!s.contains(r));
        }
    } else {
        lemma_enabled_rules(s.drop_last());
        vstd::seq_lib::to_multiset_build(s.drop_last(), s.last());
        assert(s.drop_last().push(s.last()) == s);
        if s.last().enabled {
            vstd::seq_lib::to_multiset_build(enabled_rules(s.drop_last()), s.last());
        }
    }
}

/// The active rules are the enabled ones, each as often as given, in the
/// order they apply: by priority, then age, then id.
pub proof fn active_rules_are_the_enabled_rules_in_order(rules: Seq<MockRule>)
    ensures
        applies_in_order(ordered_rules(enabled_rules(rules))),
        forall|r: MockRule| r.enabled ==> ordered_rules(enabled_rules(rules)).to_multiset().count(r)
            == rules.to_multiset().count(r),
        forall|r: MockRule| !r.enabled ==> ordered_rules(enabled_rules(rules)).to_multiset().count(r) == 0,
{
    lemma_ordered_rules(enabled_rules(rules));
    lemma_enabled_rules(rules);
}

// ---------------------------------------------------------------------------
// Response fixtures
// ---------------------------------------------------------------------------

/// A saved response that mock rules can answer with.
#[derive(Debug, Clone, PartialEq, Eq)]
pub struct MockFixture {
    pub schema_version: u16,
    pub id: String,
    pub name: String,
    pub status_code: u16,
    pub response_headers: Vec<MockHeaderMutation>,
    pub response_body: Option<MockBodyOverride>,
    pub source_flow_id: Option<String>,
    pub created_at: String,
    pub updated_at: String,
}

/// How a stored body is written into a mock: binary bodies, and text bodies
/// that are not valid UTF-8, in base64; other text as it is.
pub open spec fn body_data(reference: BodyRef, bytes: Seq<u8>) -> (MockBodyEncoding, Seq<char>) {
    if !reference.is_binary && vstd::utf8::valid_utf8(bytes) {
        (MockBodyEncoding::Text, vstd::utf8::decode_utf8(bytes))
    } else {
        (MockBodyEncoding::Base64, base64_encoded(bytes))
    }
}

pub open spec fn is_body_override_of(o: MockBodyOverride, reference: BodyRef, bytes: Seq<u8>) -> bool {
    &&& o.content_type == reference.content_type
    &&& o.encoding == body_data(reference, bytes).0
    &&& o.data@ == body_data(reference, bytes).1
}

/// The mock body for a stored body of a captured flow.
pub fn body_override(reference: &BodyRef, bytes: Vec<u8>) -> (o: MockBodyOverride)
    ensures
        is_body_override_of(o, *reference, bytes@),
{
    let ghost b = bytes@;
    let (encoding, data) = if reference.is_binary {
        (MockBodyEncoding::Base64, encode_base64(bytes.as_slice()))
    } else {
        let copy = bytes.clone();
        assert(copy@ == b);
        match crate::text::utf8_string(copy) {
            Some(text) => (MockBodyEncoding::Text, text),
            None => (MockBodyEncoding::Base64, encode_base64(bytes.as_slice())),
        }
    };
    MockBodyOverride { content_type: copy_opt_string(&reference.content_type), encoding, data }
}

/// Headers that a fixture keeps: not sensitive, and not about the framing
/// of the captured response.
pub open spec fn fixture_header_safe(h: HeaderValue) -> bool {
    let name = seq_lower(h.name@);
    &&& !h.sensitive
    &&& name != "content-length"@
    &&& name != "content-encoding"@
    &&& name != "transfer-encoding"@
    &&& name != "connection"@
}

pub fn is_fixture_header_safe(header: &HeaderValue) -> (r: bool)
    ensures
        r == fixture_header_safe(*header),
{
    if header.sensitive {
        return false;
    }
    let name = chars_of(header.name.as_str());
    !(crate::text::lower_is(&name, "content-length") || crate::text::lower_is(&name, "content-encoding")
        || crate::text::lower_is(&name, "transfer-encoding") || crate::text::lower_is(&name, "connection"))
}

pub open spec fn first_chars(s: Seq<char>, n: nat) -> Seq<char> {
    if s.len() <= n {
        s
    } else {
        s.take(n as int)
    }
}

/// A fixture's name: the given one, trimmed, or the fallback where none is
/// left; at most 120 characters either way.
pub open spec fn fixture_name(name: Option<Seq<char>>, fallback: Seq<char>) -> Seq<char> {
    let given = match name {
        Some(n) => trim(n),
        None => seq![],
    };
    if given.len() == 0 {
        first_chars(fallback, 120)
    } else {
        first_chars(given, 120)
    }
}

fn take_chars(s: &str, n: usize) -> (r: String)
    ensures
        r@ == first_chars(s@, n as nat),
{
    let v = chars_of(s);
    if v.len() <= n {
        string_of(&v)
    } else {
        string_of(&crate::text::slice_chars(&v, 0, n))
    }
}

pub fn sanitize_name(name: Option<&str>, fallback: &str) -> (r: String)
    ensures
        r@ == fixture_name(crate::ai::opt_str_view(name), fallback@),
{
    let given = match name {
        Some(n) => trimmed(n),
        None => String::new(),
    };
    if given.as_str().unicode_len() == 0 {
        take_chars(fallback, 120)
    } else {
        take_chars(given.as_str(), 120)
    }
}

pub open spec fn kept_headers(headers: Seq<HeaderValue>) -> Seq<HeaderValue>
    decreases headers.len(),
{
    if headers.len() == 0 {
        headers
    } else if fixture_header_safe(headers.last()) {
        kept_headers(headers.drop_last()).push(headers.last())
    } else {
        kept_headers(headers.drop_last())
    }
}

/// The header mutations that set the kept headers of a response.
pub open spec fn header_settings(m: Seq<MockHeaderMutation>, headers: Seq<HeaderValue>) -> bool {
    &&& m.len() == kept_headers(headers).len()
    &&& forall|i: int| 0 <= i < m.len() ==> {
        &&& (#[trigger] m[i]).name@ == kept_headers(headers)[i].name@
        &&& m[i].value matches Some(v) && v@ == kept_headers(headers)[i].value@
        &&& !m[i].remove
    }
}

fn fixture_headers(headers: &Vec<HeaderValue>) -> (r: Vec<MockHeaderMutation>)
    ensures
        header_settings(r@, headers@),
{
    let mut r: Vec<MockHeaderMutation> = Vec::new();
    let mut i: usize = 0;
    while i < headers.len()
        invariant
            i <= headers@.len(),
            header_settings(r@, headers@.take(i as int)),
        decreases headers@.len() - i,
    {
        assert(headers@.take(i + 1).drop_last() == headers@.take(i as int));
        assert(headers@.take(i + 1).last() == headers@[i as int]);
        let h = &headers[i];
        if is_fixture_header_safe(h) {
            r.push(MockHeaderMutation { name: copy_string(&h.name), value: Some(copy_string(&h.value)), remove: false });
        }
        i = i + 1;
    }
    assert(headers@.take(headers@.len() as int) == headers@);
    r
}

/// The message of a refused base64 body.
fn refusal(code: &str, prefix: &str, detail: &str) -> (e: AppError)
    ensures
        e.code@ == code@,
        e.message@ == prefix@ + detail@,
        e.recoverable,
{
    let mut m = chars_of(prefix);
    extend_str(&mut m, detail);
    AppError::new(code, string_of(&m).as_str(), true)
}

/// The reason a fixture cannot be saved, if any: it needs a name, a status
/// code between 100 and 599, and, for a base64 body, valid base64.
pub open spec fn fixture_problem(f: MockFixture) -> Option<Seq<char>> {
    if trim(f.name@).len() == 0 {
        Some("mock_fixture_name_required"@)
    } else if !(100 <= f.status_code <= 599) {
        Some("mock_fixture_status_invalid"@)
    } else {
        match f.response_body {
            Some(b) => if b.encoding == MockBodyEncoding::Base64 && base64_decoded(
                vstd::utf8::encode_utf8(b.data@),
            ) is Err {
                Some("mock_fixture_body_invalid_base64"@)
            } else {
                None
            },
            None => None,
        }
    }
}

/// Checks a fixture before it is stored.
pub fn upsert_mock_fixture(fixture: &MockFixture) -> (r: Result<(), AppError>)
    ensures
        r is Ok <==> fixture_problem(*fixture) is None,
        r matches Err(e) ==> fixture_problem(*fixture) == Some(e.code@),
        match r {
            Err(e) => e.code@ == "mock_fixture_body_invalid_base64"@ ==> (fixture.response_body matches Some(b)
                && base64_decoded(vstd::utf8::encode_utf8(b.data@)) matches Err(m) && e.message@
                == "Fixture body is not valid base64: "@ + m),
            Ok(_) => true,
        },
{
    proof {
        reveal_strlit("mock_fixture_name_required");
        reveal_strlit("mock_fixture_status_invalid");
        reveal_strlit("mock_fixture_body_invalid_base64");
        assert("mock_fixture_name_required"@.len() != "mock_fixture_body_invalid_base64"@.len());
        assert("mock_fixture_status_invalid"@.len() != "mock_fixture_body_invalid_base64"@.len());
    }
    if crate::text::is_blank(fixture.name.as_str()) {
        return Err(AppError::new("mock_fixture_name_required", "Fixture name is required.", true));
    }
    if !(100 <= fixture.status_code && fixture.status_code <= 599) {
        return Err(
            AppError::new("mock_fixture_status_invalid", "Fixture status code must be between 100 and 599.", true),
        );
    }
    match &fixture.response_body {
        Some(body) => {
            if body.encoding == MockBodyEncoding::Base64 {
                match decode_base64(body.data.as_str().as_bytes()) {
                    Err(error) => {
                        return Err(
                            refusal(
                                "mock_fixture_body_invalid_base64",
                                "Fixture body is not valid base64: ",
                                error.as_str(),
                            ),
                        );
                    },
                    Ok(_) => {},
                }
            }
        },
        None => {},
    }
    Ok(())
}

/// The reason a mock rule cannot be saved, if any: it needs a name, a path
/// pattern, a status code (where it sets one) between 100 and 599, and,
/// for a base64 body, valid base64.
pub open spec fn rule_problem(r: MockRule) -> Option<Seq<char>> {
    if trim(r.name@).len() == 0 {
        Some("mock_rule_name_required"@)
    } else if trim(r.path_pattern@).len() == 0 {
        Some("mock_rule_path_required"@)
    } else if r.status_code matches Some(s) && !(100 <= s <= 599) {
        Some("mock_rule_status_invalid"@)
    } else {
        match r.response_body {
            Some(b) => if b.encoding == MockBodyEncoding::Base64 && base64_decoded(
                vstd::utf8::encode_utf8(b.data@),
            ) is Err {
                Some("mock_rule_body_invalid_base64"@)
            } else {
                None
            },
            None => None,
        }
    }
}

/// Checks a mock rule before it is stored.
pub fn upsert_mock_rule(rule: &MockRule) -> (r: Result<(), AppError>)
    ensures
        r is Ok <==> rule_problem(*rule) is None,
        r matches Err(e) ==> rule_problem(*rule) == Some(e.code@),
        match r {
            Err(e) => e.code@ == "mock_rule_body_invalid_base64"@ ==> (rule.response_body matches Some(b)
                && base64_decoded(vstd::utf8::encode_utf8(b.data@)) matches Err(m) && e.message@
                == "Mock response body is not valid base64: "@ + m),
            Ok(_) => true,
        },
{
    proof {
        reveal_strlit("mock_rule_name_required");
        reveal_strlit("mock_rule_path_required");
        reveal_strlit("mock_rule_status_invalid");
        reveal_strlit("mock_rule_body_invalid_base64");
        assert("mock_rule_name_required"@.len() != "mock_rule_body_invalid_base64"@.len());
        assert("mock_rule_path_required"@.len() != "mock_rule_body_invalid_base64"@.len());
        assert("mock_rule_status_invalid"@.len() != "mock_rule_body_invalid_base64"@.len());
    }
    if crate::text::is_blank(rule.name.as_str()) {
        return Err(AppError::new("mock_rule_name_required", "Mock rule name is required.", true));
    }
    if crate::text::is_blank(rule.path_pattern.as_str()) {
        return Err(AppError::new("mock_rule_path_required", "Mock path pattern is required.", true));
    }
    match rule.status_code {
        Some(status) => {
            if !(100 <= status && status <= 599) {
                return Err(
                    AppError::new("mock_rule_status_invalid", "Mock status code must be between 100 and 599.", true),
                );
            }
        },
        None => {},
    }
    match &rule.response_body {
        Some(body) => {
            if body.encoding == MockBodyEncoding::Base64 {
                match decode_base64(body.data.as_str().as_bytes()) {
                    Err(error) => {
                        return Err(
                            refusal(
                                "mock_rule_body_invalid_base64",
                                "Mock response body is not valid base64: ",
                                error.as_str(),
                            ),
                        );
                    },
                    Ok(_) => {},
                }
            }
        },
        None => {},
    }
    Ok(())
}

/// The stored body a fixture or mock made from a flow needs, if any: the
/// untruncated body of its response.
pub open spec fn needs_stored_body(detail: FlowDetail) -> bool {
    detail.response matches Some(r) && r.body matches Some(b) && !b.is_truncated
}

/// The outcome of making a fixture of a captured response, given the bytes
/// of its stored body where `needs_stored_body` asks for them.
pub open spec fn fixture_of_flow(
    detail: FlowDetail,
    flow_id: Seq<char>,
    name: Option<Seq<char>>,
    id: Seq<char>,
    timestamp: Seq<char>,
    body: Option<Seq<u8>>,
    r: Result<MockFixture, AppError>,
) -> bool {
    match detail.response {
        None => r matches Err(e) && e.code@ == "fixture_response_missing"@,
        Some(response) => match response.body {
            Some(b) if b.is_truncated => r matches Err(e) && e.code@ == "fixture_body_truncated"@,
            _ => r matches Ok(f) && {
                &&& f.schema_version == MOCK_FIXTURE_SCHEMA_VERSION
                &&& f.id@ == id
                &&& f.name@ == fixture_name(
                    name,
                    detail.summary.method@ + " "@ + detail.summary.host@ + detail.summary.path@,
                )
                &&& f.status_code == response.status_code
                &&& header_settings(f.response_headers@, response.headers@)
                &&& match response.body {
                    Some(b) => f.response_body matches Some(o) && is_body_override_of(o, b, body->0),
                    None => f.response_body is None,
                }
                &&& f.source_flow_id matches Some(s) && s@ == flow_id
                &&& f.created_at@ == timestamp
                &&& f.updated_at@ == timestamp
            },
        },
    }
}

/// A fixture of the response of a captured flow: its status, its safe
/// headers and its body. A flow without a response, or whose response body
/// was truncated, gives none. `stored_body` holds the bytes of the stored
/// response body where `needs_stored_body` asks for them.
pub fn create_fixture_from_flow(
    detail: &FlowDetail,
    flow_id: &str,
    name: Option<&str>,
    id: &str,
    timestamp: &str,
    stored_body: Option<Vec<u8>>,
) -> (r: Result<MockFixture, AppError>)
    requires
        needs_stored_body(*detail) ==> stored_body is Some,
    ensures
        fixture_of_flow(
            *detail,
            flow_id@,
            crate::ai::opt_str_view(name),
            id@,
            timestamp@,
            match stored_body {
                Some(b) => Some(b@),
                None => None,
            },
            r,
        ),
{
    let response = match &detail.response {
        Some(r) => r,
        None => {
            return Err(
                AppError::new(
                    "fixture_response_missing",
                    "The selected flow does not contain a response to save as a fixture.",
                    true,
                ),
            );
        },
    };
    let response_body = match &response.body {
        Some(reference) => {
            if reference.is_truncated {
                return Err(
                    AppError::new(
                        "fixture_body_truncated",
                        "The captured response body is truncated. Create a manual fixture or recapture with a larger body limit before saving it.",
                        true,
                    ),
                );
            }
            match stored_body {
                Some(bytes) => Some(body_override(reference, bytes)),
                None => None,
            }
        },
        None => None,
    };
    let mut fallback = chars_of(detail.summary.method.as_str());
    extend_str(&mut fallback, " ");
    extend_str(&mut fallback, detail.summary.host.as_str());
    extend_str(&mut fallback, detail.summary.path.as_str());
    let fallback = string_of(&fallback);
    Ok(MockFixture {
        schema_version: MOCK_FIXTURE_SCHEMA_VERSION,
        id: owned(id),
        name: sanitize_name(name, fallback.as_str()),
        status_code: response.status_code,
        response_headers: fixture_headers(&response.headers),
        response_body,
        source_flow_id: Some(owned(flow_id)),
        created_at: owned(timestamp),
        updated_at: owned(timestamp),
    })
}

/// The outcome of making a mock rule of a captured flow.
pub open spec fn rule_of_flow(
    detail: FlowDetail,
    flow_id: Seq<char>,
    priority: i64,
    id: Seq<char>,
    timestamp: Seq<char>,
    body: Option<Seq<u8>>,
    r: Result<MockRule, AppError>,
) -> bool {
    match detail.response {
        None => r matches Err(e) && e.code@ == "mock_response_missing"@,
        Some(response) => match response.body {
            Some(b) if b.is_truncated => r matches Err(e) && e.code@ == "mock_body_truncated"@,
            _ => r matches Ok(rule) && {
                let template = path_template(detail.summary.path@);
                &&& rule.schema_version == MOCK_SCHEMA_VERSION
                &&& rule.id@ == id
                &&& rule.name@ == detail.summary.method@ + " "@ + detail.summary.host@ + template
                &&& rule.enabled
                &&& rule.priority == priority
                &&& rule.method matches Some(m) && m@ == detail.summary.method@
                &&& rule.host matches Some(h) && h@ == detail.summary.host@
                &&& rule.path_pattern@ == template
                &&& rule.path_match == MockPathMatch::Normalized
                &&& rule.status_code == Some(response.status_code)
                &&& rule.response_headers@.len() == 0
                &&& match response.body {
                    Some(b) => rule.response_body matches Some(o) && is_body_override_of(o, b, body->0),
                    None => rule.response_body is None,
                }
                &&& rule.json_mutations@.len() == 0
                &&& rule.latency_ms is None
                &&& rule.failure_mode == MockFailureMode::NoFailure
                &&& !rule.request_breakpoint
                &&& !rule.response_breakpoint
                &&& rule.source_flow_id matches Some(s) && s@ == flow_id
                &&& rule.created_at@ == timestamp
                &&& rule.updated_at@ == timestamp
            },
        },
    }
}

/// A mock rule that answers requests to the endpoint of a captured flow with
/// its captured status and body; it applies after the rules already stored
/// (its priority is their count). A flow without a response, or whose
/// response body was truncated, gives none.
pub fn create_mock_from_flow(
    detail: &FlowDetail,
    flow_id: &str,
    priority: i64,
    id: &str,
    timestamp: &str,
    stored_body: Option<Vec<u8>>,
) -> (r: Result<MockRule, AppError>)
    requires
        needs_stored_body(*detail) ==> stored_body is Some,
    ensures
        rule_of_flow(
            *detail,
            flow_id@,
            priority,
            id@,
            timestamp@,
            match stored_body {
                Some(b) => Some(b@),
                None => None,
            },
            r,
        ),
{
    let response = match &detail.response {
        Some(r) => r,
        None => {
            return Err(
                AppError::new(
                    "mock_response_missing",
                    "The selected flow does not contain a response to use as a mock.",
                    true,
                ),
            );
        },
    };
    let response_body = match &response.body {
        Some(reference) => {
            if reference.is_truncated {
                return Err(
                    AppError::new(
                        "mock_body_truncated",
                        "The captured response body is truncated. Create a manual mock body or recapture with a larger body limit before creating the mock.",
                        true,
                    ),
                );
            }
            match stored_body {
                Some(bytes) => Some(body_override(reference, bytes)),
                None => None,
            }
        },
        None => None,
    };
    let template = crate::endpoint::normalized_path_for_flow(&detail.summary);
    let mut name = chars_of(detail.summary.method.as_str());
    extend_str(&mut name, " ");
    extend_str(&mut name, detail.summary.host.as_str());
    extend_str(&mut name, template.as_str());
    Ok(MockRule {
        schema_version: MOCK_SCHEMA_VERSION,
        id: owned(id),
        name: string_of(&name),
        enabled: true,
        priority,
        method: Some(copy_string(&detail.summary.method)),
        host: Some(copy_string(&detail.summary.host)),
        path_pattern: template,
        path_match: MockPathMatch::Normalized,
        status_code: Some(response.status_code),
        response_headers: Vec::new(),
        response_body,
        json_mutations: Vec::new(),
        latency_ms: None,
        failure_mode: MockFailureMode::NoFailure,
        request_breakpoint: false,
        response_breakpoint: false,
        source_flow_id: Some(owned(flow_id)),
        created_at: owned(timestamp),
        updated_at: owned(timestamp),
    })
}

} // verus!
