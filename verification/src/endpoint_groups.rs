//! Traffic grouped by endpoint: how many requests each endpoint saw, how
//! many failed, how long they took and when the last one started.
use vstd::prelude::*;

use crate::endpoint::{endpoint_key, normalize_endpoint, path_template};
use crate::model::FlowSummary;
use crate::order::{lemma_seq_lt_irreflexive, lemma_seq_lt_total, lemma_seq_lt_transitive, seq_lt, str_lt};
use crate::text::{copy_string, owned, str_eq};

verus! {

/// The traffic of one endpoint. The durations are kept as their total and
/// their count, from which the average is computed where it is shown.
#[derive(Debug, Clone, PartialEq, Eq)]
pub struct EndpointGroup {
    pub key: String,
    pub method: String,
    pub host: String,
    pub normalized_path: String,
    pub count: u64,
    pub error_count: u64,
    pub duration_total_ms: u128,
    pub duration_count: u64,
    pub latest_started_at: String,
}

/// The endpoint a flow belongs to.
pub open spec fn flow_key(f: FlowSummary) -> Seq<char> {
    endpoint_key(f.method@, f.host@, f.path@)
}

/// A flow failed when its status is 400 or above.
pub open spec fn is_error(f: FlowSummary) -> bool {
    match f.status_code {
        Some(c) => c >= 400,
        None => false,
    }
}

/// How many of the first `n` flows belong to endpoint `k`.
pub open spec fn count_in(flows: Seq<FlowSummary>, k: Seq<char>, n: nat) -> nat
    decreases n,
{
    if n == 0 {
        0
    } else {
        count_in(flows, k, (n - 1) as nat) + if flow_key(flows[n - 1]) == k { 1nat } else { 0nat }
    }
}

/// How many of the first `n` flows belong to endpoint `k` and failed.
pub open spec fn errors_in(flows: Seq<FlowSummary>, k: Seq<char>, n: nat) -> nat
    decreases n,
{
    if n == 0 {
        0
    } else {
        errors_in(flows, k, (n - 1) as nat) + if flow_key(flows[n - 1]) == k && is_error(flows[n - 1]) {
            1nat
        } else {
            0nat
        }
    }
}

/// The total duration of the first `n` flows of endpoint `k` that have one.
pub open spec fn duration_total_in(flows: Seq<FlowSummary>, k: Seq<char>, n: nat) -> nat
    decreases n,
{
    if n == 0 {
        0
    } else {
        duration_total_in(flows, k, (n - 1) as nat) + if flow_key(flows[n - 1]) == k && flows[n - 1].duration_ms is Some {
            flows[n - 1].duration_ms->0 as nat
        } else {
            0nat
        }
    }
}

/// How many of the first `n` flows of endpoint `k` have a duration.
pub open spec fn duration_count_in(flows: Seq<FlowSummary>, k: Seq<char>, n: nat) -> nat
    decreases n,
{
    if n == 0 {
        0
    } else {
        duration_count_in(flows, k, (n - 1) as nat) + if flow_key(flows[n - 1]) == k && flows[n - 1].duration_ms is Some {
            1nat
        } else {
            0nat
        }
    }
}

/// The greatest start time among the first `n` flows of endpoint `k`, by
/// the order of strings (the empty string where there is none).
pub open spec fn latest_in(flows: Seq<FlowSummary>, k: Seq<char>, n: nat) -> Seq<char>
    decreases n,
{
    if n == 0 {
        seq![]
    } else {
        let before = latest_in(flows, k, (n - 1) as nat);
        if flow_key(flows[n - 1]) == k && seq_lt(before, flows[n - 1].started_at@) {
            flows[n - 1].started_at@
        } else {
            before
        }
    }
}

/// The position of the last of the first `n` flows of endpoint `k`, or -1.
pub open spec fn last_in(flows: Seq<FlowSummary>, k: Seq<char>, n: nat) -> int
    decreases n,
{
    if n == 0 {
        -1
    } else if flow_key(flows[n - 1]) == k {
        n - 1
    } else {
        last_in(flows, k, (n - 1) as nat)
    }
}

/// `g` sums up the first `n` flows for its endpoint, which has at least one
/// of them; the method, host and path template are those of the last.
#[verifier::opaque]
pub open spec fn sums_up(flows: Seq<FlowSummary>, g: EndpointGroup, n: nat) -> bool {
    let k = g.key@;
    let last = flows[last_in(flows, k, n)];
    &&& g.count == count_in(flows, k, n)
    &&& g.count > 0
    &&& g.method@ == last.method@
    &&& g.host@ == last.host@
    &&& g.normalized_path@ == path_template(last.path@)
    &&& g.error_count == errors_in(flows, k, n)
    &&& g.duration_total_ms == duration_total_in(flows, k, n)
    &&& g.duration_count == duration_count_in(flows, k, n)
    &&& g.latest_started_at@ == latest_in(flows, k, n)
}

/// The order of the groups: busiest first, then by key.
pub open spec fn comes_before(a: EndpointGroup, b: EndpointGroup) -> bool {
    a.count > b.count || (a.count == b.count && seq_lt(a.key@, b.key@))
}

/// The flows the groups count, all together.
pub open spec fn total_count(groups: Seq<EndpointGroup>) -> nat
    decreases groups.len(),
{
    if groups.len() == 0 {
        0
    } else {
        groups[0].count as nat + total_count(groups.drop_first())
    }
}

proof fn lemma_total_push(s: Seq<EndpointGroup>, x: EndpointGroup)
    ensures
        total_count(s.push(x)) == total_count(s) + x.count,
    decreases s.len(),
{
    if s.len() > 0 {
        assert(s.push(x).drop_first() =~= s.drop_first().push(x));
        assert(s.push(x)[0] == s[0]);
        lemma_total_push(s.drop_first(), x);
    } else {
        assert(s.push(x).drop_first() =~= Seq::<EndpointGroup>::empty());
        assert(total_count(Seq::<EndpointGroup>::empty()) == 0);
        assert(s.push(x)[0] == x);
    }
}

proof fn lemma_total_update(s: Seq<EndpointGroup>, p: int, x: EndpointGroup)
    requires
        0 <= p < s.len(),
    ensures
        total_count(s.update(p, x)) == total_count(s) - s[p].count + x.count,
    decreases p,
{
    if p == 0 {
        assert(s.update(p, x).drop_first() =~= s.drop_first());
    } else {
        assert(s.update(p, x).drop_first() =~= s.drop_first().update(p - 1, x));
        lemma_total_update(s.drop_first(), p - 1, x);
    }
}

proof fn lemma_total_insert(s: Seq<EndpointGroup>, p: int, x: EndpointGroup)
    requires
        0 <= p <= s.len(),
    ensures
        total_count(s.insert(p, x)) == total_count(s) + x.count,
    decreases p,
{
    if p == 0 {
        assert(s.insert(p, x).drop_first() =~= s);
    } else {
        assert(s.insert(p, x).drop_first() =~= s.drop_first().insert(p - 1, x));
        lemma_total_insert(s.drop_first(), p - 1, x);
    }
}

proof fn lemma_none_before(flows: Seq<FlowSummary>, k: Seq<char>, n: nat)
    requires
        n <= flows.len(),
        count_in(flows, k, n) == 0,
    ensures
        last_in(flows, k, n) == -1,
        errors_in(flows, k, n) == 0,
        duration_total_in(flows, k, n) == 0,
        duration_count_in(flows, k, n) == 0,
        latest_in(flows, k, n) == Seq::<char>::empty(),
    decreases n,
{
    if n > 0 {
        lemma_none_before(flows, k, (n - 1) as nat);
    }
}

proof fn lemma_last_in(flows: Seq<FlowSummary>, k: Seq<char>, n: nat)
    requires
        n <= flows.len(),
    ensures
        -1 <= last_in(flows, k, n) < n,
        last_in(flows, k, n) >= 0 ==> flow_key(flows[last_in(flows, k, n)]) == k,
        count_in(flows, k, n) > 0 <==> last_in(flows, k, n) >= 0,
        count_in(flows, k, n) <= n,
        errors_in(flows, k, n) <= count_in(flows, k, n),
        duration_count_in(flows, k, n) <= count_in(flows, k, n),
        duration_total_in(flows, k, n) <= duration_count_in(flows, k, n) * 0xffff_ffff_ffff_ffff,
    decreases n,
{
    if n > 0 {
        lemma_last_in(flows, k, (n - 1) as nat);
    }
}

/// One of the groups is that of endpoint `k`.
pub open spec fn has_key(groups: Seq<EndpointGroup>, k: Seq<char>) -> bool {
    exists|a: int| 0 <= a < groups.len() && (#[trigger] groups[a]).key@ == k
}

/// The groups of the first `n` flows, in any order: one per endpoint, with
/// every endpoint of those flows among them.
pub open spec fn tallies(flows: Seq<FlowSummary>, groups: Seq<EndpointGroup>, n: nat) -> bool {
    &&& forall|a: int| 0 <= a < groups.len() ==> sums_up(flows, #[trigger] groups[a], n)
    &&& forall|a: int, b: int| 0 <= a < b < groups.len() ==> (#[trigger] groups[a]).key@ != (#[trigger] groups[b]).key@
    &&& forall|m: int| 0 <= m < n ==> has_key(groups, #[trigger] flow_key(flows[m]))
}

/// The group of flow `i` once `old` summed up the flows before it.
fn count_flow(old: EndpointGroup, flow: &FlowSummary, method: String, host: String, path: String, Ghost(flows): Ghost<Seq<FlowSummary>>, Ghost(i): Ghost<nat>) -> (g: EndpointGroup)
    requires
        i < flows.len(),
        flows.len() <= usize::MAX,
        flows[i as int] == *flow,
        sums_up(flows, old, i),
        old.key@ == flow_key(*flow),
        method@ == flow.method@,
        host@ == flow.host@,
        path@ == path_template(flow.path@),
    ensures
        sums_up(flows, g, (i + 1) as nat),
        g.key == old.key,
        g.count == old.count + 1,
{
    let k = Ghost(old.key@);
    proof {
        reveal(sums_up);
        lemma_last_in(flows, k@, i);
        assert(old.count <= i);
        assert(old.duration_total_ms <= old.duration_count * 0xffff_ffff_ffff_ffff);
        assert(old.duration_count <= i);
        assert(old.duration_count * 0xffff_ffff_ffff_ffff <= i * 0xffff_ffff_ffff_ffff) by (nonlinear_arith)
            requires
                old.duration_count <= i;
        assert(i * 0xffff_ffff_ffff_ffff + 0xffff_ffff_ffff_ffff <= 0xffff_ffff_ffff_ffff_ffff_ffff_ffff_ffff) by (nonlinear_arith)
            requires
                i < 0xffff_ffff_ffff_ffff;
    }
    let errors = match flow.status_code {
        Some(c) => if c >= 400 { old.error_count + 1 } else { old.error_count },
        None => old.error_count,
    };
    let (total, timed) = match flow.duration_ms {
        Some(d) => (old.duration_total_ms + d as u128, old.duration_count + 1),
        None => (old.duration_total_ms, old.duration_count),
    };
    let latest = if str_lt(old.latest_started_at.as_str(), flow.started_at.as_str()) {
        copy_string(&flow.started_at)
    } else {
        old.latest_started_at
    };
    let g = EndpointGroup {
        key: old.key,
        method,
        host,
        normalized_path: path,
        count: old.count + 1,
        error_count: errors,
        duration_total_ms: total,
        duration_count: timed,
        latest_started_at: latest,
    };
    assert(last_in(flows, k@, (i + 1) as nat) == i);
    proof {
        reveal(sums_up);
    }
    g
}

/// The groups of the flows, in the order their endpoints first appear.
fn tally(flows: &Vec<FlowSummary>) -> (groups: Vec<EndpointGroup>)
    ensures
        tallies(flows@, groups@, flows@.len()),
        total_count(groups@) == flows@.len(),
{
    reveal(sums_up);
    let mut groups: Vec<EndpointGroup> = Vec::new();
    let mut i: usize = 0;
    while i < flows.len()
        invariant
            i <= flows@.len(),
            tallies(flows@, groups@, i as nat),
            total_count(groups@) == i,
        decreases flows@.len() - i,
    {
        let flow = &flows[i];
        let endpoint = normalize_endpoint(flow.method.as_str(), flow.host.as_str(), flow.path.as_str());
        let ghost k = flow_key(*flow);
        let mut p: usize = 0;
        while p < groups.len()
            invariant
                p <= groups@.len(),
                endpoint.key@ == k,
                forall|q: int| 0 <= q < p ==> (#[trigger] groups@[q]).key@ != k,
            ensures
                p <= groups@.len(),
                forall|q: int| 0 <= q < p ==> (#[trigger] groups@[q]).key@ != k,
                p < groups@.len() ==> groups@[p as int].key@ == k,
            decreases groups@.len() - p,
        {
            if str_eq(groups[p].key.as_str(), endpoint.key.as_str()) {
                break;
            }
            p = p + 1;
        }
        let ghost before = groups@;
        if p < groups.len() {
            let old = groups.remove(p);
            assert(old == before[p as int]);
            assert(sums_up(flows@, old, i as nat));
            let g = count_flow(old, flow, endpoint.method, endpoint.host, endpoint.path_template, Ghost(flows@), Ghost(i as nat));
            groups.insert(p, g);
            assert(groups@ =~= before.update(p as int, g));
            proof {
                lemma_total_update(before, p as int, g);
            }
            assert forall|a: int| 0 <= a < groups@.len() implies sums_up(flows@, #[trigger] groups@[a], (i + 1) as nat) by {
                reveal(sums_up);
                if a != p {
                    assert(groups@[a] == before[a]);
                    if a < p {
                        assert(before[a].key@ != before[p as int].key@);
                    } else {
                        assert(before[p as int].key@ != before[a].key@);
                    }
                }
            }
            assert forall|m: int| 0 <= m < i + 1 implies has_key(groups@, #[trigger] flow_key(flows@[m])) by {
                if m < i {
                    assert(has_key(before, flow_key(flows@[m])));
                    let a = choose|a: int| 0 <= a < before.len() && (#[trigger] before[a]).key@ == flow_key(flows@[m]);
                    assert(groups@[a].key@ == before[a].key@);
                } else {
                    assert(groups@[p as int].key@ == k);
                }
            }
        } else {
            proof {
                if count_in(flows@, k, i as nat) > 0 {
                    lemma_last_in(flows@, k, i as nat);
                    let m = last_in(flows@, k, i as nat);
                    assert(flow_key(flows@[m]) == k);
                    assert(has_key(before, flow_key(flows@[m])));
                    let a = choose|a: int| 0 <= a < before.len() && (#[trigger] before[a]).key@ == flow_key(flows@[m]);
                    assert(false);
                }
                lemma_none_before(flows@, k, i as nat);
            }
            let latest = if str_lt("", flow.started_at.as_str()) {
                copy_string(&flow.started_at)
            } else {
                owned("")
            };
            proof {
                reveal_strlit("");
            }
            let errors: u64 = match flow.status_code {
                Some(c) => if c >= 400 { 1 } else { 0 },
                None => 0,
            };
            let (total, timed): (u128, u64) = match flow.duration_ms {
                Some(d) => (d as u128, 1),
                None => (0, 0),
            };
            let g = EndpointGroup {
                key: endpoint.key,
                method: endpoint.method,
                host: endpoint.host,
                normalized_path: endpoint.path_template,
                count: 1,
                error_count: errors,
                duration_total_ms: total,
                duration_count: timed,
                latest_started_at: latest,
            };
            groups.push(g);
            proof {
                lemma_total_push(before, g);
            }
            assert(last_in(flows@, k, (i + 1) as nat) == i);
            assert(g.count == count_in(flows@, k, (i + 1) as nat));
            assert(g.error_count == errors_in(flows@, k, (i + 1) as nat));
            assert(g.duration_total_ms == duration_total_in(flows@, k, (i + 1) as nat));
            assert(g.duration_count == duration_count_in(flows@, k, (i + 1) as nat));
            assert(g.latest_started_at@ == latest_in(flows@, k, (i + 1) as nat));
            assert(g.method@ == flows@[i as int].method@);
            assert(sums_up(flows@, g, (i + 1) as nat)) by {
                reveal(sums_up);
            }
            assert forall|a: int| 0 <= a < groups@.len() implies sums_up(flows@, #[trigger] groups@[a], (i + 1) as nat) by {
                reveal(sums_up);
                if a < before.len() {
                    assert(groups@[a] == before[a]);
                    assert(before[a].key@ != k);
                }
            }
            assert forall|m: int| 0 <= m < i + 1 implies has_key(groups@, #[trigger] flow_key(flows@[m])) by {
                if m < i {
                    assert(has_key(before, flow_key(flows@[m])));
                    let a = choose|a: int| 0 <= a < before.len() && (#[trigger] before[a]).key@ == flow_key(flows@[m]);
                    assert(groups@[a].key@ == before[a].key@);
                } else {
                    assert(groups@[before.len() as int].key@ == k);
                }
            }
        }
        i = i + 1;
    }
    groups
}

pub open spec fn in_order(s: Seq<EndpointGroup>) -> bool {
    forall|a: int, b: int| 0 <= a < b < s.len() ==> comes_before(#[trigger] s[a], #[trigger] s[b])
}

proof fn lemma_comes_before_transitive(a: EndpointGroup, b: EndpointGroup, c: EndpointGroup)
    requires
        comes_before(a, b),
        comes_before(b, c),
    ensures
        comes_before(a, c),
{
    if a.count == b.count && b.count == c.count {
        lemma_seq_lt_transitive(a.key@, b.key@, c.key@);
    }
}

proof fn lemma_insert_in_order(s: Seq<EndpointGroup>, p: int, g: EndpointGroup)
    requires
        in_order(s),
        0 <= p <= s.len(),
        forall|a: int| 0 <= a < p ==> comes_before(#[trigger] s[a], g),
        forall|a: int| p <= a < s.len() ==> comes_before(g, #[trigger] s[a]),
    ensures
        in_order(s.insert(p, g)),
{
    let t = s.insert(p, g);
    assert forall|a: int, b: int| 0 <= a < b < t.len() implies comes_before(#[trigger] t[a], #[trigger] t[b]) by {
        if a < p {
            if b < p {
                assert(t[a] == s[a] && t[b] == s[b]);
            } else if b == p {
                assert(t[a] == s[a] && t[b] == g);
            } else {
                assert(t[a] == s[a] && t[b] == s[b - 1]);
            }
        } else if a == p {
            assert(t[a] == g && t[b] == s[b - 1]);
        } else {
            assert(t[a] == s[a - 1] && t[b] == s[b - 1]);
        }
    }
}

/// Puts `g` where it belongs among the ordered groups `out`, whose keys
/// all differ from its own.
fn insert_group(out: &mut Vec<EndpointGroup>, g: EndpointGroup, Ghost(flows): Ghost<Seq<FlowSummary>>, Ghost(n): Ghost<nat>) -> (p: usize)
    requires
        in_order(old(out)@),
        forall|a: int| 0 <= a < old(out)@.len() ==> sums_up(flows, #[trigger] old(out)@[a], n),
        forall|a: int| 0 <= a < old(out)@.len() ==> (#[trigger] old(out)@[a]).key@ != g.key@,
        sums_up(flows, g, n),
    ensures
        p <= old(out)@.len(),
        final(out)@ == old(out)@.insert(p as int, g),
        in_order(final(out)@),
        forall|a: int| 0 <= a < final(out)@.len() ==> sums_up(flows, #[trigger] final(out)@[a], n),
{
    let mut p: usize = 0;
    while p < out.len() && (out[p].count > g.count || (out[p].count == g.count && str_lt(out[p].key.as_str(), g.key.as_str())))
        invariant
            p <= out@.len(),
            forall|a: int| 0 <= a < p ==> comes_before(#[trigger] out@[a], g),
        decreases out@.len() - p,
    {
        p = p + 1;
    }
    proof {
        if p < out@.len() {
            let x = out@[p as int];
            assert(!comes_before(x, g));
            assert(x.key@ != g.key@);
            lemma_seq_lt_total(x.key@, g.key@);
            assert(comes_before(g, x));
            assert forall|a: int| p <= a < out@.len() implies comes_before(g, #[trigger] out@[a]) by {
                if a > p {
                    assert(comes_before(out@[p as int], out@[a]));
                    lemma_comes_before_transitive(g, out@[p as int], out@[a]);
                }
            }
        }
        lemma_insert_in_order(out@, p as int, g);
    }
    let ghost before = out@;
    out.insert(p, g);
    assert forall|a: int| 0 <= a < out@.len() implies sums_up(flows, #[trigger] out@[a], n) by {
        if a < p {
            assert(out@[a] == before[a]);
        } else if a > p {
            assert(out@[a] == before[a - 1]);
        }
    }
    p
}

/// `out` holds one group for each of the first `j` groups of `input`, and
/// no other.
pub open spec fn holds_first(out: Seq<EndpointGroup>, input: Seq<EndpointGroup>, j: int) -> bool {
    &&& forall|q: int| 0 <= q < j ==> has_key(out, (#[trigger] input[q]).key@)
    &&& forall|a: int| 0 <= a < out.len() ==> has_key(input.take(j), (#[trigger] out[a]).key@)
}

proof fn lemma_holds_next(before: Seq<EndpointGroup>, p: int, input: Seq<EndpointGroup>, j: int)
    requires
        0 <= j < input.len(),
        0 <= p <= before.len(),
        holds_first(before, input, j),
    ensures
        holds_first(before.insert(p, input[j]), input, j + 1),
{
    let out = before.insert(p, input[j]);
    assert forall|q: int| 0 <= q < j + 1 implies has_key(out, (#[trigger] input[q]).key@) by {
        if q < j {
            assert(has_key(before, input[q].key@));
            let a = choose|a: int| 0 <= a < before.len() && (#[trigger] before[a]).key@ == input[q].key@;
            let b = if a < p { a } else { a + 1 };
            assert(out[b] == before[a]);
        } else {
            assert(out[p] == input[j]);
        }
    }
    assert forall|a: int| 0 <= a < out.len() implies has_key(input.take(j + 1), (#[trigger] out[a]).key@) by {
        if a == p {
            assert(input.take(j + 1)[j] == input[j]);
        } else {
            let c = if a < p { a } else { a - 1 };
            assert(out[a] == before[c]);
            assert(has_key(input.take(j), before[c].key@));
            let q = choose|q: int| 0 <= q < j && (#[trigger] input.take(j)[q]).key@ == before[c].key@;
            assert(input.take(j + 1)[q] == input.take(j)[q]);
        }
    }
}

proof fn lemma_ordered_keys_differ(flows: Seq<FlowSummary>, out: Seq<EndpointGroup>, n: nat)
    requires
        in_order(out),
        forall|a: int| 0 <= a < out.len() ==> sums_up(flows, #[trigger] out[a], n),
    ensures
        forall|a: int, b: int| 0 <= a < b < out.len() ==> (#[trigger] out[a]).key@ != (#[trigger] out[b]).key@,
{
    assert forall|a: int, b: int| 0 <= a < b < out.len() implies (#[trigger] out[a]).key@ != (#[trigger] out[b]).key@ by {
        if out[a].key@ == out[b].key@ {
            reveal(sums_up);
            assert(sums_up(flows, out[a], n));
            assert(sums_up(flows, out[b], n));
            assert(comes_before(out[a], out[b]));
            lemma_seq_lt_irreflexive(out[a].key@);
        }
    }
}

proof fn lemma_ordered_covers(flows: Seq<FlowSummary>, out: Seq<EndpointGroup>, input: Seq<EndpointGroup>, n: nat)
    requires
        forall|m: int| 0 <= m < n ==> has_key(input, #[trigger] flow_key(flows[m])),
        forall|q: int| 0 <= q < input.len() ==> has_key(out, (#[trigger] input[q]).key@),
    ensures
        forall|m: int| 0 <= m < n ==> has_key(out, #[trigger] flow_key(flows[m])),
{
    assert forall|m: int| 0 <= m < n implies has_key(out, #[trigger] flow_key(flows[m])) by {
        assert(has_key(input, flow_key(flows[m])));
        let q = choose|q: int| 0 <= q < input.len() && (#[trigger] input[q]).key@ == flow_key(flows[m]);
        assert(has_key(out, input[q].key@));
    }
}

proof fn lemma_ordered_tallies(flows: Seq<FlowSummary>, out: Seq<EndpointGroup>, input: Seq<EndpointGroup>, n: nat)
    requires
        tallies(flows, input, n),
        in_order(out),
        forall|a: int| 0 <= a < out.len() ==> sums_up(flows, #[trigger] out[a], n),
        holds_first(out, input, input.len() as int),
    ensures
        tallies(flows, out, n),
{
    lemma_ordered_keys_differ(flows, out, n);
    lemma_ordered_covers(flows, out, input, n);
}

/// The groups, busiest first, then by key.
fn order_groups(groups: Vec<EndpointGroup>, Ghost(flows): Ghost<Seq<FlowSummary>>, Ghost(n): Ghost<nat>) -> (r: Vec<EndpointGroup>)
    requires
        tallies(flows, groups@, n),
    ensures
        tallies(flows, r@, n),
        in_order(r@),
        total_count(r@) == total_count(groups@),
{
    let ghost input = groups@;
    assert(input.skip(0) =~= input);
    let mut rest = groups;
    let mut out: Vec<EndpointGroup> = Vec::new();
    let ghost mut j: int = 0;
    while rest.len() > 0
        invariant
            0 <= j <= input.len(),
            rest@ == input.skip(j),
            tallies(flows, input, n),
            in_order(out@),
            forall|a: int| 0 <= a < out@.len() ==> sums_up(flows, #[trigger] out@[a], n),
            holds_first(out@, input, j),
            total_count(out@) + total_count(input.skip(j)) == total_count(input),
        decreases rest@.len(),
    {
        let g = rest.remove(0);
        assert(g == input[j]);
        assert(input.skip(j).drop_first() =~= input.skip(j + 1));
        proof {
            assert forall|a: int| 0 <= a < out@.len() implies (#[trigger] out@[a]).key@ != g.key@ by {
                assert(has_key(input.take(j), out@[a].key@));
                let q = choose|q: int| 0 <= q < j && (#[trigger] input.take(j)[q]).key@ == out@[a].key@;
                assert(input.take(j)[q] == input[q]);
                assert(input[q].key@ != input[j].key@);
            }
        }
        let ghost before = out@;
        let p = insert_group(&mut out, g, Ghost(flows), Ghost(n));
        proof {
            lemma_holds_next(before, p as int, input, j);
            lemma_total_insert(before, p as int, g);
            assert(input.skip(j + 1) =~= input.skip(j).drop_first());
            j = j + 1;
        }
    }
    proof {
        assert(input.skip(j).len() == 0);
        assert(input.skip(j) =~= Seq::<EndpointGroup>::empty());
        assert(input.take(j) =~= input);
        lemma_ordered_tallies(flows, out@, input, n);
    }
    out
}

/// The traffic of each endpoint the flows reach, busiest endpoint first
/// and then by key: one group per endpoint, each summing up all the flows
/// of its endpoint.
pub fn group_endpoints(flows: &Vec<FlowSummary>) -> (r: Vec<EndpointGroup>)
    ensures
        forall|a: int| 0 <= a < r@.len() ==> sums_up(flows@, #[trigger] r@[a], flows@.len()),
        forall|a: int, b: int| 0 <= a < b < r@.len() ==> (#[trigger] r@[a]).key@ != (#[trigger] r@[b]).key@,
        forall|m: int| 0 <= m < flows@.len() ==> has_key(r@, #[trigger] flow_key(flows@[m])),
        in_order(r@),
        total_count(r@) == flows@.len(),
{
    let groups = tally(flows);
    order_groups(groups, Ghost(flows@), Ghost(flows@.len()))
}

} // verus!
