//! Searching captured traffic: which flows a query finds, in which order,
//! and what each result carries.
use vstd::prelude::*;

use crate::devices::opt_view;
use crate::endpoint::{endpoint_key, normalize_endpoint, path_template, EndpointIdentity};
use crate::model::{copy_summary, CaptureSession, FlowSource, FlowSummary};
use crate::text::{
    chars_of, contains_chars, contains_seq, copy_string, extend_str, lowercase, string_of, str_eq, trim,
    trimmed, unicode_lowercase, unicode_uppercase, uppercase,
};

verus! {

/// The limit of a search when the query sets none.
pub const DEFAULT_SEARCH_LIMIT: usize = 500;

/// The most results a search gives.
pub const MAX_SEARCH_LIMIT: usize = 5000;

/// What to look for in captured traffic. Each part that is set narrows the
/// search; text parts that are blank are not set.
#[derive(Debug, Clone, PartialEq, Eq)]
pub struct TrafficSearchQuery {
    pub text: Option<String>,
    pub session_id: Option<String>,
    pub method: Option<String>,
    pub source: Option<FlowSource>,
    pub status_class: Option<u16>,
    pub endpoint_key: Option<String>,
    pub limit: Option<usize>,
}

/// A flow found, with its endpoint and the name of its session.
#[derive(Debug, Clone)]
pub struct TrafficSearchResult {
    pub flow: FlowSummary,
    pub endpoint: EndpointIdentity,
    pub session_name: Option<String>,
}

/// How many results a query allows: its limit, 500 where it has none,
/// kept within 1 to 5000.
pub open spec fn search_limit(q: TrafficSearchQuery) -> nat {
    match q.limit {
        None => DEFAULT_SEARCH_LIMIT as nat,
        Some(l) => if l < 1 {
            1
        } else if l > MAX_SEARCH_LIMIT {
            MAX_SEARCH_LIMIT as nat
        } else {
            l as nat
        },
    }
}

/// A text part of a query, trimmed, where it is not blank.
pub open spec fn filled(o: Option<String>) -> Option<Seq<char>> {
    match o {
        Some(t) => if trim(t@).len() == 0 {
            None
        } else {
            Some(trim(t@))
        },
        None => None,
    }
}

/// The name of the session with this id; where several have it, the last.
pub open spec fn session_name_in(sessions: Seq<CaptureSession>, id: Seq<char>) -> Option<Seq<char>>
    decreases sessions.len(),
{
    if sessions.len() == 0 {
        None
    } else if sessions.last().id@ == id {
        Some(sessions.last().name@)
    } else {
        session_name_in(sessions.drop_last(), id)
    }
}

pub open spec fn flow_session_name(f: FlowSummary, sessions: Seq<CaptureSession>) -> Option<Seq<char>> {
    match f.session_id {
        Some(id) => session_name_in(sessions, id@),
        None => None,
    }
}

/// The text the search text is looked for in: method, host, path, path
/// template and session name, separated by spaces.
pub open spec fn haystack(f: FlowSummary, sessions: Seq<CaptureSession>) -> Seq<char> {
    let name = match flow_session_name(f, sessions) {
        Some(n) => n,
        None => Seq::empty(),
    };
    f.method@ + " "@ + f.host@ + " "@ + f.path@ + " "@ + path_template(f.path@) + " "@ + name
}

/// Whether a flow answers a query: in the session, from the source, with
/// the method (in upper case), in the status class (the hundreds of its
/// status) and at the endpoint asked for, and, where there is search text,
/// with the text (in lower case) in its haystack (in lower case).
pub open spec fn traffic_matches(f: FlowSummary, sessions: Seq<CaptureSession>, q: TrafficSearchQuery) -> bool {
    &&& match q.session_id {
        Some(s) => match f.session_id {
            Some(x) => x@ == s@,
            None => false,
        },
        None => true,
    }
    &&& match q.source {
        Some(s) => f.source == s,
        None => true,
    }
    &&& match filled(q.method) {
        Some(m) => unicode_uppercase(f.method@) == unicode_uppercase(m),
        None => true,
    }
    &&& match q.status_class {
        Some(c) => match f.status_code {
            Some(s) => s / 100 == c,
            None => false,
        },
        None => true,
    }
    &&& match filled(q.endpoint_key) {
        Some(k) => endpoint_key(f.method@, f.host@, f.path@) == k,
        None => true,
    }
    &&& match filled(q.text) {
        Some(t) => contains_seq(unicode_lowercase(haystack(f, sessions)), unicode_lowercase(t)),
        None => true,
    }
}

/// The flows that answer a query, in order.
pub open spec fn matching(flows: Seq<FlowSummary>, sessions: Seq<CaptureSession>, q: TrafficSearchQuery) -> Seq<FlowSummary>
    decreases flows.len(),
{
    if flows.len() == 0 {
        Seq::empty()
    } else if traffic_matches(flows.last(), sessions, q) {
        matching(flows.drop_last(), sessions, q).push(flows.last())
    } else {
        matching(flows.drop_last(), sessions, q)
    }
}

/// The flows a search finds: the first that answer the query, as many as
/// its limit allows.
pub open spec fn traffic_search(flows: Seq<FlowSummary>, sessions: Seq<CaptureSession>, q: TrafficSearchQuery) -> Seq<FlowSummary> {
    let m = matching(flows, sessions, q);
    if m.len() <= search_limit(q) {
        m
    } else {
        m.take(search_limit(q) as int)
    }
}

/// A result carries the flow, its endpoint and its session's name.
pub open spec fn result_of(r: TrafficSearchResult, f: FlowSummary, sessions: Seq<CaptureSession>) -> bool {
    &&& r.flow == f
    &&& r.endpoint.key@ == endpoint_key(f.method@, f.host@, f.path@)
    &&& r.endpoint.method@ == f.method@
    &&& r.endpoint.host@ == f.host@
    &&& r.endpoint.path_template@ == path_template(f.path@)
    &&& opt_view(r.session_name) == flow_session_name(f, sessions)
}

proof fn lemma_matching_prefix(flows: Seq<FlowSummary>, sessions: Seq<CaptureSession>, q: TrafficSearchQuery, n: int)
    requires
        0 <= n <= flows.len(),
    ensures
        matching(flows.take(n), sessions, q).len() <= matching(flows, sessions, q).len(),
        matching(flows, sessions, q).take(matching(flows.take(n), sessions, q).len() as int) == matching(
            flows.take(n),
            sessions,
            q,
        ),
    decreases flows.len(),
{
    if n == flows.len() {
        assert(flows.take(n) =~= flows);
        assert(matching(flows, sessions, q).take(matching(flows, sessions, q).len() as int) =~= matching(flows, sessions, q));
    } else {
        lemma_matching_prefix(flows.drop_last(), sessions, q, n);
        assert(flows.drop_last().take(n) =~= flows.take(n));
        let a = matching(flows.take(n), sessions, q);
        let m = matching(flows, sessions, q);
        let d = matching(flows.drop_last(), sessions, q);
        if traffic_matches(flows.last(), sessions, q) {
            assert(m == d.push(flows.last()));
            assert(m.take(a.len() as int) =~= d.take(a.len() as int));
        }
    }
}

proof fn lemma_matching_members(flows: Seq<FlowSummary>, sessions: Seq<CaptureSession>, q: TrafficSearchQuery)
    ensures
        matching(flows, sessions, q).len() <= flows.len(),
        forall|i: int| 0 <= i < matching(flows, sessions, q).len() ==> traffic_matches(
            #[trigger] matching(flows, sessions, q)[i],
            sessions,
            q,
        ) && flows.contains(matching(flows, sessions, q)[i]),
    decreases flows.len(),
{
    if flows.len() > 0 {
        let rest = flows.drop_last();
        lemma_matching_members(rest, sessions, q);
        let m = matching(flows, sessions, q);
        let d = matching(rest, sessions, q);
        assert forall|i: int| 0 <= i < m.len() implies traffic_matches(#[trigger] m[i], sessions, q) && flows.contains(m[i]) by {
            if i < d.len() {
                assert(m[i] == d[i]);
                let k = choose|k: int| 0 <= k < rest.len() && rest[k] == d[i];
                assert(flows[k] == d[i]);
            } else {
                assert(m[i] == flows.last());
                assert(flows[flows.len() - 1] == m[i]);
            }
        }
    }
}

/// Every flow a search finds is one of the flows searched, and answers each
/// part of the query that is set: it is in the session, from the source and
/// in the status class (the hundreds of its status) asked for.
pub proof fn search_results_answer_the_query(
    flows: Seq<FlowSummary>,
    sessions: Seq<CaptureSession>,
    q: TrafficSearchQuery,
    i: int,
)
    requires
        0 <= i < traffic_search(flows, sessions, q).len(),
    ensures
        flows.contains(traffic_search(flows, sessions, q)[i]),
        q.session_id is Some ==> traffic_search(flows, sessions, q)[i].session_id is Some
            && traffic_search(flows, sessions, q)[i].session_id->0@ == q.session_id->0@,
        q.source is Some ==> traffic_search(flows, sessions, q)[i].source == q.source->0,
        q.status_class is Some ==> traffic_search(flows, sessions, q)[i].status_code is Some
            && traffic_search(flows, sessions, q)[i].status_code->0 / 100 == q.status_class->0,
{
    lemma_matching_members(flows, sessions, q);
    let m = matching(flows, sessions, q);
    assert(traffic_search(flows, sessions, q)[i] == m[i]);
    assert(traffic_matches(m[i], sessions, q));
}

/// A search gives at most as many results as its limit: the limit asked
/// for, within 1 to 5000, or 500 where none is.
pub proof fn search_respects_its_limit(flows: Seq<FlowSummary>, sessions: Seq<CaptureSession>, q: TrafficSearchQuery)
    ensures
        traffic_search(flows, sessions, q).len() <= 5000,
        q.limit is None ==> traffic_search(flows, sessions, q).len() <= 500,
        q.limit is Some && q.limit->0 >= 1 ==> traffic_search(flows, sessions, q).len() <= q.limit->0,
        traffic_search(flows, sessions, q).len() <= flows.len(),
{
    lemma_matching_members(flows, sessions, q);
}

fn filled_text(o: &Option<String>) -> (r: Option<String>)
    ensures
        opt_view(r) == filled(*o),
{
    match o {
        Some(t) => {
            let tt = trimmed(t.as_str());
            if chars_of(tt.as_str()).len() == 0 {
                None
            } else {
                Some(tt)
            }
        },
        None => None,
    }
}

fn session_name_for(sessions: &Vec<CaptureSession>, id: &str) -> (r: Option<String>)
    ensures
        opt_view(r) == session_name_in(sessions@, id@),
{
    let mut found: Option<String> = None;
    let mut i: usize = 0;
    assert(sessions@.take(0) =~= Seq::<CaptureSession>::empty());
    while i < sessions.len()
        invariant
            i <= sessions@.len(),
            opt_view(found) == session_name_in(sessions@.take(i as int), id@),
        decreases sessions@.len() - i,
    {
        assert(sessions@.take(i + 1).drop_last() =~= sessions@.take(i as int));
        assert(sessions@.take(i + 1).last() == sessions@[i as int]);
        if str_eq(sessions[i].id.as_str(), id) {
            found = Some(copy_string(&sessions[i].name));
        }
        i = i + 1;
    }
    assert(sessions@.take(sessions@.len() as int) =~= sessions@);
    found
}

/// Whether one flow answers the query, given the query's prepared parts,
/// with its endpoint and session name.
fn check_flow(
    flow: &FlowSummary,
    sessions: &Vec<CaptureSession>,
    q: &TrafficSearchQuery,
    needle: &Option<String>,
    method: &Option<String>,
    key: &Option<String>,
) -> (r: (bool, EndpointIdentity, Option<String>))
    requires
        opt_view(*needle) == (match filled(q.text) {
            Some(t) => Some(unicode_lowercase(t)),
            None => None,
        }),
        opt_view(*method) == (match filled(q.method) {
            Some(m) => Some(unicode_uppercase(m)),
            None => None,
        }),
        opt_view(*key) == filled(q.endpoint_key),
    ensures
        r.0 == traffic_matches(*flow, sessions@, *q),
        r.1.key@ == endpoint_key(flow.method@, flow.host@, flow.path@),
        r.1.method@ == flow.method@,
        r.1.host@ == flow.host@,
        r.1.path_template@ == path_template(flow.path@),
        opt_view(r.2) == flow_session_name(*flow, sessions@),
{
    let endpoint = normalize_endpoint(flow.method.as_str(), flow.host.as_str(), flow.path.as_str());
    let name = match &flow.session_id {
        Some(id) => session_name_for(sessions, id.as_str()),
        None => None,
    };
    let in_session = match &q.session_id {
        Some(s) => match &flow.session_id {
            Some(x) => str_eq(x.as_str(), s.as_str()),
            None => false,
        },
        None => true,
    };
    let from_source = match q.source {
        Some(s) => flow.source == s,
        None => true,
    };
    let with_method = match method {
        Some(m) => {
            let upper = uppercase(flow.method.as_str());
            str_eq(upper.as_str(), m.as_str())
        },
        None => true,
    };
    let in_class = match q.status_class {
        Some(c) => match flow.status_code {
            Some(s) => s / 100 == c,
            None => false,
        },
        None => true,
    };
    let at_endpoint = match key {
        Some(k) => str_eq(endpoint.key.as_str(), k.as_str()),
        None => true,
    };
    let with_text = match needle {
        Some(t) => {
            let mut hay = chars_of(flow.method.as_str());
            extend_str(&mut hay, " ");
            extend_str(&mut hay, flow.host.as_str());
            extend_str(&mut hay, " ");
            extend_str(&mut hay, flow.path.as_str());
            extend_str(&mut hay, " ");
            extend_str(&mut hay, endpoint.path_template.as_str());
            extend_str(&mut hay, " ");
            match &name {
                Some(n) => extend_str(&mut hay, n.as_str()),
                None => {},
            }
            proof {
                match opt_view(name) {
                    Some(n) => assert(hay@ =~= haystack(*flow, sessions@)),
                    None => assert(hay@ =~= haystack(*flow, sessions@)),
                }
            }
            let text = string_of(&hay);
            let lower = lowercase(text.as_str());
            contains_chars(&chars_of(lower.as_str()), &chars_of(t.as_str()))
        },
        None => true,
    };
    (in_session && from_source && with_method && in_class && at_endpoint && with_text, endpoint, name)
}

/// Searches the flows, in the order given, for those that answer the query,
/// up to its limit; each result carries the flow's endpoint and the name of
/// its session among `sessions`.
pub fn search_traffic(flows: Vec<FlowSummary>, sessions: Vec<CaptureSession>, query: &TrafficSearchQuery) -> (r: Vec<TrafficSearchResult>)
    ensures
        r@.len() == traffic_search(flows@, sessions@, *query).len(),
        forall|i: int| 0 <= i < r@.len() ==> result_of(#[trigger] r@[i], traffic_search(flows@, sessions@, *query)[i], sessions@),
{
    let limit: usize = match query.limit {
        None => DEFAULT_SEARCH_LIMIT,
        Some(l) => if l < 1 {
            1
        } else if l > MAX_SEARCH_LIMIT {
            MAX_SEARCH_LIMIT
        } else {
            l
        },
    };
    let needle = match filled_text(&query.text) {
        Some(t) => Some(lowercase(t.as_str())),
        None => None,
    };
    let method = match filled_text(&query.method) {
        Some(m) => Some(uppercase(m.as_str())),
        None => None,
    };
    let key = filled_text(&query.endpoint_key);
    let ghost fs = flows@;
    let ghost ss = sessions@;
    let ghost q = *query;
    let mut results: Vec<TrafficSearchResult> = Vec::new();
    let mut i: usize = 0;
    assert(fs.take(0) =~= Seq::<FlowSummary>::empty());
    while i < flows.len()
        invariant
            fs == flows@,
            ss == sessions@,
            q == *query,
            limit as nat == search_limit(q),
            opt_view(needle) == (match filled(q.text) {
                Some(t) => Some(unicode_lowercase(t)),
                None => None,
            }),
            opt_view(method) == (match filled(q.method) {
                Some(m) => Some(unicode_uppercase(m)),
                None => None,
            }),
            opt_view(key) == filled(q.endpoint_key),
            i <= fs.len(),
            results@.len() == matching(fs.take(i as int), ss, q).len(),
            results@.len() < limit,
            forall|k: int| 0 <= k < results@.len() ==> result_of(#[trigger] results@[k], matching(fs.take(i as int), ss, q)[k], ss),
        decreases fs.len() - i,
    {
        let (ok, endpoint, name) = check_flow(&flows[i], &sessions, query, &needle, &method, &key);
        assert(fs.take(i + 1).drop_last() =~= fs.take(i as int));
        assert(fs.take(i + 1).last() == fs[i as int]);
        if ok {
            let ghost before = results@;
            results.push(TrafficSearchResult { flow: copy_summary(&flows[i]), endpoint, session_name: name });
            assert forall|k: int| 0 <= k < results@.len() implies result_of(
                #[trigger] results@[k],
                matching(fs.take(i + 1), ss, q)[k],
                ss,
            ) by {
                if k < before.len() {
                    assert(results@[k] == before[k]);
                }
            }
            if results.len() >= limit {
                proof {
                    lemma_matching_prefix(fs, ss, q, i + 1);
                }
                return results;
            }
        }
        i = i + 1;
    }
    assert(fs.take(fs.len() as int) =~= fs);
    results
}

} // verus!
