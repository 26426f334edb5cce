//! A session as it is compared and diagnosed: the session found among the
//! stored ones, with its flows in the order they started.
use vstd::prelude::*;

use crate::compare::{ComparableFlow, SessionDiagnostics, SessionSnapshot, diagnose_session, is_diagnosis, timestamp_ms, timestamp_of};
use crate::model::{AppError, CaptureSession};
use crate::text::str_eq;

verus! {

/// When a flow started, in epoch milliseconds (zero where that is not a
/// number).
pub open spec fn flow_time(f: ComparableFlow) -> u128 {
    timestamp_of(f.detail.summary.started_at@)
}

pub open spec fn time_insertion_index(s: Seq<ComparableFlow>, x: ComparableFlow) -> int
    decreases s.len(),
{
    if s.len() == 0 {
        0
    } else if flow_time(x) < flow_time(s[0]) {
        0
    } else {
        1 + time_insertion_index(s.drop_first(), x)
    }
}

/// The flows in the order they started; flows that started at the same
/// time keep their order (a stable sort).
pub open spec fn ordered_by_time(s: Seq<ComparableFlow>) -> Seq<ComparableFlow>
    decreases s.len(),
{
    if s.len() == 0 {
        s
    } else {
        let rest = ordered_by_time(s.drop_last());
        rest.insert(time_insertion_index(rest, s.last()), s.last())
    }
}

proof fn lemma_time_insertion_index(s: Seq<ComparableFlow>, x: ComparableFlow, j: int)
    requires
        0 <= j <= s.len(),
        forall|m: int| 0 <= m < j ==> !(flow_time(x) < flow_time(#[trigger] s[m])),
        j == s.len() || flow_time(x) < flow_time(s[j]),
    ensures
        time_insertion_index(s, x) == j,
    decreases j,
{
    if j > 0 {
        let t = s.drop_first();
        assert forall|m: int| 0 <= m < j - 1 implies !(flow_time(x) < flow_time(#[trigger] t[m])) by {
            assert(t[m] == s[m + 1]);
        }
        if j < s.len() {
            assert(t[j - 1] == s[j]);
        }
        lemma_time_insertion_index(t, x, j - 1);
    }
}

/// The flows in the order they started.
pub fn order_by_start(flows: Vec<ComparableFlow>) -> (r: Vec<ComparableFlow>)
    ensures
        r@ == ordered_by_time(flows@),
{
    let ghost orig = flows@;
    let mut flows = flows;
    let mut out: Vec<ComparableFlow> = Vec::new();
    let ghost mut n: int = 0;
    while flows.len() > 0
        invariant
            0 <= n <= orig.len(),
            flows@ == orig.skip(n),
            out@ == ordered_by_time(orig.take(n)),
        decreases flows@.len(),
    {
        let x = flows.remove(0);
        proof {
            assert(orig.skip(n)[0] == x);
            assert(flows@ =~= orig.skip(n + 1));
            assert(orig.take(n + 1).drop_last() == orig.take(n));
            assert(orig.take(n + 1).last() == x);
        }
        let time = timestamp_ms(x.detail.summary.started_at.as_str());
        let mut j: usize = 0;
        while j < out.len() && !(time < timestamp_ms(out[j].detail.summary.started_at.as_str()))
            invariant
                j <= out@.len(),
                time == flow_time(x),
                forall|m: int| 0 <= m < j ==> !(flow_time(x) < flow_time(#[trigger] out@[m])),
            decreases out@.len() - j,
        {
            j = j + 1;
        }
        proof {
            lemma_time_insertion_index(out@, x, j as int);
            n = n + 1;
        }
        out.insert(j, x);
    }
    assert(orig.take(n) == orig);
    out
}

/// `k` is the position of the first session with id `id`.
pub open spec fn first_with_id(sessions: Seq<CaptureSession>, id: Seq<char>, k: int) -> bool {
    &&& 0 <= k < sessions.len()
    &&& sessions[k].id@ == id
    &&& forall|j: int| 0 <= j < k ==> (#[trigger] sessions[j]).id@ != id
}

/// The snapshot of a session: the first stored session with its id, and
/// the given flows (those of the session that have a stored detail) in the
/// order they started. A session that is not stored is reported.
pub open spec fn is_snapshot_of(sessions: Seq<CaptureSession>, id: Seq<char>, flows: Seq<ComparableFlow>, r: Result<SessionSnapshot, AppError>) -> bool {
    match r {
        Ok(snapshot) => exists|k: int| {
            &&& first_with_id(sessions, id, k)
            &&& snapshot.session == #[trigger] sessions[k]
            &&& snapshot.flows@ == ordered_by_time(flows)
        },
        Err(e) => {
            &&& forall|j: int| 0 <= j < sessions.len() ==> (#[trigger] sessions[j]).id@ != id
            &&& e.code@ == "compare_session_missing"@
            &&& e.message@ == "Capture session was not found."@
            &&& e.recoverable
        },
    }
}

pub fn build_snapshot(session_id: &str, sessions: Vec<CaptureSession>, flows: Vec<ComparableFlow>) -> (r: Result<SessionSnapshot, AppError>)
    ensures
        is_snapshot_of(sessions@, session_id@, flows@, r),
{
    let ghost all = sessions@;
    let mut k: usize = 0;
    while k < sessions.len()
        invariant
            k <= sessions@.len(),
            forall|j: int| 0 <= j < k ==> (#[trigger] sessions@[j]).id@ != session_id@,
        ensures
            k <= sessions@.len(),
            forall|j: int| 0 <= j < k ==> (#[trigger] sessions@[j]).id@ != session_id@,
            k < sessions@.len() ==> sessions@[k as int].id@ == session_id@,
        decreases sessions@.len() - k,
    {
        if str_eq(sessions[k].id.as_str(), session_id) {
            break;
        }
        k = k + 1;
    }
    if k == sessions.len() {
        return Err(AppError::new("compare_session_missing", "Capture session was not found.", true));
    }
    let mut sessions = sessions;
    let session = sessions.remove(k);
    let ordered = order_by_start(flows);
    let snapshot = SessionSnapshot { session, flows: ordered };
    assert(first_with_id(all, session_id@, k as int));
    assert(snapshot.session == all[k as int]);
    Ok(snapshot)
}

/// The diagnostics of a stored session, given the stored sessions and the
/// session's flows that have a stored detail.
pub fn session_diagnostics(session_id: &str, sessions: Vec<CaptureSession>, flows: Vec<ComparableFlow>) -> (r: Result<SessionDiagnostics, AppError>)
    ensures
        match r {
            Ok(d) => (exists|k: int| #[trigger] first_with_id(sessions@, session_id@, k))
                && is_diagnosis(ordered_by_time(flows@), d),
            Err(e) => (forall|j: int| 0 <= j < sessions@.len() ==> (#[trigger] sessions@[j]).id@ != session_id@)
                && e.code@ == "compare_session_missing"@,
        },
{
    let ghost fs = flows@;
    let ghost ss = sessions@;
    match build_snapshot(session_id, sessions, flows) {
        Ok(snapshot) => {
            let ghost k = choose|k: int| {
                &&& first_with_id(ss, session_id@, k)
                &&& snapshot.session == #[trigger] ss[k]
                &&& snapshot.flows@ == ordered_by_time(fs)
            };
            assert(first_with_id(ss, session_id@, k));
            Ok(diagnose_session(&snapshot))
        },
        Err(e) => Err(e),
    }
}

} // verus!
