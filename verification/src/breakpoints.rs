//! Breakpoints: requests and responses that a mock rule holds until the
//! user lets them continue, edited or not, or cancels them.
//!
//! The capture engine writes each held exchange as a pending file and waits
//! for a decision file; this module decides what those files hold and when
//! they are stale.
use vstd::prelude::*;

use crate::model::AppError;
use crate::order::seq_lt;
use crate::text::{chars_of, extend_str, is_ascii_alphanumeric, is_blank, parse_u128, string_of, trim};

verus! {

#[derive(Debug, Clone, Copy, PartialEq, Eq, Structural)]
pub enum BreakpointStage {
    Request,
    Response,
}

#[derive(Debug, Clone, PartialEq, Eq)]
pub struct BreakpointHeader {
    pub name: String,
    pub value: String,
}

#[derive(Debug, Clone, PartialEq, Eq)]
pub struct BreakpointBody {
    pub data_base64: String,
    pub content_type: Option<String>,
    pub is_binary: bool,
    pub is_truncated: bool,
}

/// An exchange held at a breakpoint, as the capture engine describes it.
#[derive(Debug, Clone, PartialEq, Eq)]
pub struct PendingBreakpoint {
    pub schema_version: u16,
    pub id: String,
    pub flow_id: String,
    pub rule_id: String,
    pub rule_name: String,
    pub stage: BreakpointStage,
    pub created_at: String,
    pub deadline_at: String,
    pub method: String,
    pub url: String,
    pub headers: Vec<BreakpointHeader>,
    pub body: Option<BreakpointBody>,
    pub status_code: Option<u16>,
}

#[derive(Debug, Clone, Copy, PartialEq, Eq, Structural)]
pub enum BreakpointDecisionAction {
    Continue,
    Cancel,
}

/// What the user decided for a held exchange, with the edits to apply.
#[derive(Debug, Clone, PartialEq, Eq)]
pub struct BreakpointDecisionInput {
    pub id: String,
    pub action: BreakpointDecisionAction,
    pub method: Option<String>,
    pub url: Option<String>,
    pub headers: Option<Vec<BreakpointHeader>>,
    pub body: Option<BreakpointBody>,
    pub clear_body: bool,
    pub status_code: Option<u16>,
}

/// The decision file the capture engine reads.
#[derive(Debug, Clone, PartialEq, Eq)]
pub struct BreakpointDecisionDocument {
    pub schema_version: u16,
    pub id: String,
    pub action: BreakpointDecisionAction,
    pub method: Option<String>,
    pub url: Option<String>,
    pub headers: Option<Vec<BreakpointHeader>>,
    pub body: Option<BreakpointBody>,
    pub clear_body: bool,
    pub status_code: Option<u16>,
}

pub open spec fn id_char(c: char) -> bool {
    is_ascii_alphanumeric(c) || c == '-' || c == '_'
}

pub open spec fn id_chars(s: Seq<char>) -> Seq<char>
    decreases s.len(),
{
    if s.len() == 0 {
        s
    } else if id_char(s.last()) {
        id_chars(s.drop_last()).push(s.last())
    } else {
        id_chars(s.drop_last())
    }
}

/// The name under which a breakpoint's files are kept: the ASCII letters,
/// digits, `-` and `_` of its id, at most 160 of them.
pub open spec fn file_stem(id: Seq<char>) -> Seq<char> {
    let kept = id_chars(id);
    if kept.len() <= 160 {
        kept
    } else {
        kept.take(160)
    }
}

pub fn safe_id(value: &str) -> (r: String)
    ensures
        r@ == file_stem(value@),
{
    let v = chars_of(value);
    let mut kept: Vec<char> = Vec::new();
    let mut i: usize = 0;
    while i < v.len()
        invariant
            i <= v@.len(),
            kept@ == id_chars(v@.take(i as int)),
        decreases v@.len() - i,
    {
        assert(v@.take(i + 1).drop_last() == v@.take(i as int));
        assert(v@.take(i + 1).last() == v@[i as int]);
        let c = v[i];
        if crate::text::is_alnum_char(c) || c == '-' || c == '_' {
            kept.push(c);
        }
        i = i + 1;
    }
    assert(v@.take(v@.len() as int) == v@);
    if kept.len() <= 160 {
        string_of(&kept)
    } else {
        string_of(&crate::text::slice_chars(&kept, 0, 160))
    }
}

/// The file, in the decisions directory, that answers a breakpoint, and
/// what it holds. A decision needs the breakpoint's id and, where it sets a
/// status, one between 100 and 599.
pub fn resolve_breakpoint(input: BreakpointDecisionInput) -> (r: Result<(String, BreakpointDecisionDocument), AppError>)
    ensures
        match r {
            Ok((file, doc)) => {
                &&& trim(input.id@).len() > 0
                &&& (input.status_code matches Some(s) ==> 100 <= s <= 599)
                &&& file@ == file_stem(input.id@) + ".json"@
                &&& doc == (BreakpointDecisionDocument {
                    schema_version: 1,
                    id: input.id,
                    action: input.action,
                    method: input.method,
                    url: input.url,
                    headers: input.headers,
                    body: input.body,
                    clear_body: input.clear_body,
                    status_code: input.status_code,
                })
            },
            Err(e) => if trim(input.id@).len() == 0 {
                e.code@ == "breakpoint_id_required"@ && e.message@ == "Breakpoint id is required."@
            } else {
                &&& input.status_code matches Some(s) && !(100 <= s <= 599)
                &&& e.code@ == "breakpoint_status_invalid"@
                &&& e.message@ == "Breakpoint response status must be between 100 and 599."@
            },
        },
{
    if is_blank(input.id.as_str()) {
        return Err(AppError::new("breakpoint_id_required", "Breakpoint id is required.", true));
    }
    match input.status_code {
        Some(status) => {
            if !(100 <= status && status <= 599) {
                return Err(
                    AppError::new(
                        "breakpoint_status_invalid",
                        "Breakpoint response status must be between 100 and 599.",
                        true,
                    ),
                );
            }
        },
        None => {},
    }
    let mut file = chars_of(safe_id(input.id.as_str()).as_str());
    extend_str(&mut file, ".json");
    let file = string_of(&file);
    let doc = BreakpointDecisionDocument {
        schema_version: 1,
        id: input.id,
        action: input.action,
        method: input.method,
        url: input.url,
        headers: input.headers,
        body: input.body,
        clear_body: input.clear_body,
        status_code: input.status_code,
    };
    Ok((file, doc))
}

/// A held exchange has expired when its deadline, in epoch milliseconds,
/// is not after `now`; a deadline that is not a number never expires.
pub open spec fn expired(pending: PendingBreakpoint, now: u128) -> bool {
    match parse_u128(pending.deadline_at@) {
        Some(deadline) => deadline <= now,
        None => false,
    }
}

pub fn is_expired(pending: &PendingBreakpoint, now: u128) -> (r: bool)
    ensures
        r == expired(*pending, now),
{
    match crate::text::parse_u128_exec(pending.deadline_at.as_str()) {
        Some(deadline) => deadline <= now,
        None => false,
    }
}

/// A decision file is stale once it is more than two minutes old (its age
/// given in seconds and nanoseconds).
pub fn is_stale_decision(age_secs: u64, age_nanos: u32) -> (r: bool)
    ensures
        r == (age_secs > 120 || (age_secs == 120 && age_nanos > 0)),
{
    age_secs > 120 || (age_secs == 120 && age_nanos > 0)
}

// ---------------------------------------------------------------------------
// Listing order
// ---------------------------------------------------------------------------

/// Held exchanges are listed oldest first, then by id.
pub open spec fn pending_before(a: PendingBreakpoint, b: PendingBreakpoint) -> bool {
    seq_lt(a.created_at@, b.created_at@) || (a.created_at@ == b.created_at@ && seq_lt(a.id@, b.id@))
}

pub open spec fn pending_insertion_index(s: Seq<PendingBreakpoint>, x: PendingBreakpoint) -> int
    decreases s.len(),
{
    if s.len() == 0 {
        0
    } else if pending_before(x, s[0]) {
        0
    } else {
        1 + pending_insertion_index(s.drop_first(), x)
    }
}

/// The listing order: a stable sort by creation time, then id.
pub open spec fn ordered_pending(s: Seq<PendingBreakpoint>) -> Seq<PendingBreakpoint>
    decreases s.len(),
{
    if s.len() == 0 {
        s
    } else {
        let rest = ordered_pending(s.drop_last());
        rest.insert(pending_insertion_index(rest, s.last()), s.last())
    }
}

proof fn lemma_pending_insertion_index(s: Seq<PendingBreakpoint>, x: PendingBreakpoint, j: int)
    requires
        0 <= j <= s.len(),
        forall|m: int| 0 <= m < j ==> !pending_before(x, #[trigger] s[m]),
        j == s.len() || pending_before(x, s[j]),
    ensures
        pending_insertion_index(s, x) == j,
    decreases j,
{
    if j > 0 {
        assert(!pending_before(x, s[0]));
        let t = s.drop_first();
        assert forall|m: int| 0 <= m < j - 1 implies !pending_before(x, #[trigger] t[m]) by {
            assert(t[m] == s[m + 1]);
        }
        if j < s.len() {
            assert(t[j - 1] == s[j]);
        }
        lemma_pending_insertion_index(t, x, j - 1);
    }
}

fn held_before(a: &PendingBreakpoint, b: &PendingBreakpoint) -> (r: bool)
    ensures
        r == pending_before(*a, *b),
{
    crate::order::str_lt(a.created_at.as_str(), b.created_at.as_str()) || (crate::text::str_eq(
        a.created_at.as_str(),
        b.created_at.as_str(),
    ) && crate::order::str_lt(a.id.as_str(), b.id.as_str()))
}

/// The held exchanges read from the pending files, in listing order.
pub fn list_pending_breakpoints(pending: Vec<PendingBreakpoint>) -> (r: Vec<PendingBreakpoint>)
    ensures
        r@ == ordered_pending(pending@),
{
    let ghost orig = pending@;
    let mut pending = pending;
    let mut out: Vec<PendingBreakpoint> = Vec::new();
    let ghost mut n: int = 0;
    while pending.len() > 0
        invariant
            0 <= n <= orig.len(),
            pending@ == orig.skip(n),
            out@ == ordered_pending(orig.take(n)),
        decreases pending@.len(),
    {
        let x = pending.remove(0);
        proof {
            assert(n < orig.len());
            assert(orig.skip(n)[0] == x);
            assert(pending@ =~= orig.skip(n + 1));
            assert(orig.take(n + 1).drop_last() == orig.take(n));
            assert(orig.take(n + 1).last() == x);
        }
        let mut j: usize = 0;
        while j < out.len() && !held_before(&x, &out[j])
            invariant
                j <= out@.len(),
                forall|m: int| 0 <= m < j ==> !pending_before(x, #[trigger] out@[m]),
            decreases out@.len() - j,
        {
            j = j + 1;
        }
        proof {
            lemma_pending_insertion_index(out@, x, j as int);
            n = n + 1;
        }
        out.insert(j, x);
    }
    assert(orig.take(n) == orig);
    out
}

// ---------------------------------------------------------------------------
// Clearing stale files
// ---------------------------------------------------------------------------

/// The positions, among the first `n` pending files (each read as a held
/// exchange where it could be), of those whose exchange has expired.
pub open spec fn expired_positions(pending: Seq<Option<PendingBreakpoint>>, now: u128, n: nat) -> Seq<int>
    decreases n,
{
    if n == 0 {
        seq![]
    } else {
        let rest = expired_positions(pending, now, (n - 1) as nat);
        match pending[n - 1] {
            Some(p) => if expired(p, now) { rest.push(n - 1) } else { rest },
            None => rest,
        }
    }
}

/// The positions, among the first `n` decision files (each with its age in
/// seconds and nanoseconds where it is known), of the stale ones.
pub open spec fn stale_positions(ages: Seq<Option<(u64, u32)>>, n: nat) -> Seq<int>
    decreases n,
{
    if n == 0 {
        seq![]
    } else {
        let rest = stale_positions(ages, (n - 1) as nat);
        match ages[n - 1] {
            Some(age) => if age.0 > 120 || (age.0 == 120 && age.1 > 0) { rest.push(n - 1) } else { rest },
            None => rest,
        }
    }
}

pub open spec fn positions(v: Seq<usize>) -> Seq<int> {
    v.map_values(|i: usize| i as int)
}

/// The files that clearing stale breakpoints removes: the pending files
/// whose exchange has expired (those that could not be read stay), then
/// the decision files older than two minutes (those whose age is unknown
/// stay). The caller removes them and counts those it could remove.
pub fn clear_stale_breakpoints(pending: &Vec<Option<PendingBreakpoint>>, decision_ages: &Vec<Option<(u64, u32)>>, now: u128) -> (r: (Vec<usize>, Vec<usize>))
    ensures
        positions(r.0@) == expired_positions(pending@, now, pending@.len()),
        positions(r.1@) == stale_positions(decision_ages@, decision_ages@.len()),
{
    let mut expired_files: Vec<usize> = Vec::new();
    let mut i: usize = 0;
    while i < pending.len()
        invariant
            i <= pending@.len(),
            positions(expired_files@) == expired_positions(pending@, now, i as nat),
        decreases pending@.len() - i,
    {
        let ghost before = expired_files@;
        match &pending[i] {
            Some(p) => {
                if is_expired(p, now) {
                    expired_files.push(i);
                    assert(positions(expired_files@) =~= positions(before).push(i as int));
                }
            },
            None => {},
        }
        i = i + 1;
    }
    let mut stale_files: Vec<usize> = Vec::new();
    let mut j: usize = 0;
    while j < decision_ages.len()
        invariant
            j <= decision_ages@.len(),
            positions(stale_files@) == stale_positions(decision_ages@, j as nat),
        decreases decision_ages@.len() - j,
    {
        let ghost before = stale_files@;
        match decision_ages[j] {
            Some(age) => {
                if is_stale_decision(age.0, age.1) {
                    stale_files.push(j);
                    assert(positions(stale_files@) =~= positions(before).push(j as int));
                }
            },
            None => {},
        }
        j = j + 1;
    }
    (expired_files, stale_files)
}

} // verus!
