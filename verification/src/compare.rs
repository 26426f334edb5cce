//! Comparing two capture sessions call by call, and the diagnostics of a
//! single session: duplicates, slow calls, error clusters and the waterfall.
use vstd::prelude::*;

use crate::json::{parse_json, JsonValue};
use crate::model::{CaptureSession, FlowDetail, HeaderValue};
use crate::text::{copy_opt_string, copy_string};

verus! {

pub const COMPARE_SCHEMA_VERSION: u16 = 1;

/// The characters of an optional string.
pub open spec fn opt_view(o: Option<String>) -> Option<Seq<char>> {
    match o {
        Some(s) => Some(s@),
        None => None,
    }
}

// ---------------------------------------------------------------------------
// What is compared
// ---------------------------------------------------------------------------

#[derive(Debug, Clone, PartialEq, Eq)]
pub struct ComparableBody {
    pub content_type: Option<String>,
    pub text: Option<String>,
    pub byte_size: u64,
    pub truncated: bool,
}

#[derive(Debug, Clone, PartialEq, Eq, Default)]
pub struct AppContextEvidence {
    pub app_id: Option<String>,
    pub app_name: Option<String>,
    pub platform: Option<String>,
    pub screen: Option<String>,
    pub feature: Option<String>,
    pub source_file: Option<String>,
    pub source_function: Option<String>,
    pub source_line: Option<u32>,
}

#[derive(Debug, Clone, PartialEq, Eq)]
pub struct ComparableFlow {
    pub detail: FlowDetail,
    pub request_body: Option<ComparableBody>,
    pub response_body: Option<ComparableBody>,
    pub app_context: Option<AppContextEvidence>,
}

#[derive(Debug, Clone, PartialEq, Eq)]
pub struct SessionSnapshot {
    pub session: CaptureSession,
    pub flows: Vec<ComparableFlow>,
}

// ---------------------------------------------------------------------------
// What a comparison reports
// ---------------------------------------------------------------------------

#[derive(Debug, Clone, Copy, PartialEq, Eq, Structural)]
pub enum Presence {
    Both,
    BaselineOnly,
    CandidateOnly,
}

#[derive(Debug, Clone, Copy, PartialEq, Eq, Structural)]
pub enum DifferenceKind {
    Same,
    Changed,
    Added,
    Removed,
}

#[derive(Debug, Clone, PartialEq, Eq)]
pub struct ScalarDifference {
    pub kind: DifferenceKind,
    pub baseline: Option<String>,
    pub candidate: Option<String>,
}

#[derive(Debug, Clone, PartialEq, Eq)]
pub struct HeaderDifference {
    pub name: String,
    pub kind: DifferenceKind,
    pub baseline: Vec<String>,
    pub candidate: Vec<String>,
}

#[derive(Debug, Clone, PartialEq, Eq)]
pub struct JsonTypeChange {
    pub pointer: String,
    pub baseline_type: String,
    pub candidate_type: String,
}

#[derive(Debug, Clone, PartialEq, Eq, Default)]
pub struct JsonShapeDifference {
    pub added_paths: Vec<String>,
    pub removed_paths: Vec<String>,
    pub type_changes: Vec<JsonTypeChange>,
}

impl JsonShapeDifference {
    /// No path was added or removed and no type changed.
    pub fn is_empty(&self) -> (r: bool)
        ensures
            r == (self.added_paths@.len() == 0 && self.removed_paths@.len() == 0
                && self.type_changes@.len() == 0),
    {
        self.added_paths.len() == 0 && self.removed_paths.len() == 0 && self.type_changes.len() == 0
    }
}

#[derive(Debug, Clone, PartialEq, Eq)]
pub struct BodyDifference {
    pub kind: DifferenceKind,
    pub baseline_content_type: Option<String>,
    pub candidate_content_type: Option<String>,
    pub baseline_byte_size: Option<u64>,
    pub candidate_byte_size: Option<u64>,
    pub baseline_preview: Option<String>,
    pub candidate_preview: Option<String>,
    pub json_shape: Option<JsonShapeDifference>,
}

#[derive(Debug, Clone, PartialEq, Eq)]
pub struct QueryDifference {
    pub name: String,
    pub kind: DifferenceKind,
    pub baseline: Vec<String>,
    pub candidate: Vec<String>,
}

#[derive(Debug, Clone, PartialEq, Eq)]
pub struct RequestDifference {
    pub method: ScalarDifference,
    pub query: Vec<QueryDifference>,
    pub headers: Vec<HeaderDifference>,
    pub body: BodyDifference,
}

#[derive(Debug, Clone, PartialEq, Eq)]
pub struct ResponseDifference {
    pub status: ScalarDifference,
    pub headers: Vec<HeaderDifference>,
    pub body: BodyDifference,
}

#[derive(Debug, Clone, Copy, PartialEq, Eq, Structural)]
pub struct TimingDifference {
    pub baseline_total_ms: Option<u64>,
    pub candidate_total_ms: Option<u64>,
    pub delta_ms: Option<i64>,
    pub delta_percent: Option<i64>,
    pub baseline_size_bytes: Option<u64>,
    pub candidate_size_bytes: Option<u64>,
    pub size_delta_bytes: Option<i64>,
}

#[derive(Debug, Clone, PartialEq, Eq)]
pub struct CallComparison {
    pub endpoint_key: String,
    pub occurrence: usize,
    pub presence: Presence,
    pub baseline_flow_id: Option<String>,
    pub candidate_flow_id: Option<String>,
    pub baseline_started_at: Option<String>,
    pub candidate_started_at: Option<String>,
    pub request: Option<RequestDifference>,
    pub response: Option<ResponseDifference>,
    pub timing: TimingDifference,
    pub baseline_context: Option<AppContextEvidence>,
    pub candidate_context: Option<AppContextEvidence>,
    pub changed: bool,
}

#[derive(Debug, Clone, PartialEq, Eq)]
pub struct EndpointComparison {
    pub endpoint_key: String,
    pub method: String,
    pub host: String,
    pub path_template: String,
    pub baseline_count: usize,
    pub candidate_count: usize,
    pub calls: Vec<CallComparison>,
}

#[derive(Debug, Clone, PartialEq, Eq)]
pub struct DuplicateDiagnostic {
    pub endpoint_key: String,
    pub call_count: usize,
    pub likely_retry_count: usize,
    pub flow_ids: Vec<String>,
}

#[derive(Debug, Clone, PartialEq, Eq)]
pub struct SlowRequestDiagnostic {
    pub flow_id: String,
    pub endpoint_key: String,
    pub total_ms: u64,
    pub status_code: Option<u16>,
}

#[derive(Debug, Clone, PartialEq, Eq)]
pub struct ErrorClusterDiagnostic {
    pub key: String,
    pub endpoint_key: String,
    pub status_code: Option<u16>,
    pub error_code: Option<String>,
    pub count: usize,
    pub flow_ids: Vec<String>,
}

#[derive(Debug, Clone, Copy, PartialEq, Eq, Structural)]
pub enum WaterfallGroupKind {
    Overlap,
    Sequential,
}

#[derive(Debug, Clone, PartialEq, Eq)]
pub struct WaterfallGroup {
    pub kind: WaterfallGroupKind,
    pub started_at_ms: u128,
    pub ended_at_ms: u128,
    pub flow_ids: Vec<String>,
    pub endpoint_keys: Vec<String>,
}

#[derive(Debug, Clone, PartialEq, Eq, Default)]
pub struct SessionDiagnostics {
    pub duplicates: Vec<DuplicateDiagnostic>,
    pub slowest: Vec<SlowRequestDiagnostic>,
    pub errors: Vec<ErrorClusterDiagnostic>,
    pub waterfall_groups: Vec<WaterfallGroup>,
}

#[derive(Debug, Clone, Copy, PartialEq, Eq, Default, Structural)]
pub struct ComparisonSummary {
    pub endpoint_count: usize,
    pub matched_calls: usize,
    pub baseline_only_calls: usize,
    pub candidate_only_calls: usize,
    pub changed_calls: usize,
    pub status_changes: usize,
    pub body_changes: usize,
    pub json_shape_drifts: usize,
    pub timing_regressions: usize,
}

#[derive(Debug, Clone, PartialEq, Eq)]
pub struct SessionComparison {
    pub schema_version: u16,
    pub baseline_session: CaptureSession,
    pub candidate_session: CaptureSession,
    pub endpoints: Vec<EndpointComparison>,
    pub summary: ComparisonSummary,
    pub baseline_diagnostics: SessionDiagnostics,
    pub candidate_diagnostics: SessionDiagnostics,
}

// ---------------------------------------------------------------------------
// Kinds of difference
// ---------------------------------------------------------------------------

/// How two sides differ: equal sides are the same; otherwise a side that
/// only the candidate has was added, one that only the baseline has was
/// removed, and two present sides changed.
pub open spec fn diff_kind(left_exists: bool, right_exists: bool, equal: bool) -> DifferenceKind {
    if equal {
        DifferenceKind::Same
    } else if left_exists && right_exists {
        DifferenceKind::Changed
    } else if left_exists {
        DifferenceKind::Removed
    } else if right_exists {
        DifferenceKind::Added
    } else {
        DifferenceKind::Same
    }
}

pub fn difference_kind(left_exists: bool, right_exists: bool, equal: bool) -> (k: DifferenceKind)
    ensures
        k == diff_kind(left_exists, right_exists, equal),
{
    if equal {
        DifferenceKind::Same
    } else if left_exists && right_exists {
        DifferenceKind::Changed
    } else if left_exists {
        DifferenceKind::Removed
    } else if right_exists {
        DifferenceKind::Added
    } else {
        DifferenceKind::Same
    }
}

fn opt_str_eq(left: &Option<String>, right: &Option<String>) -> (r: bool)
    ensures
        r == (opt_view(*left) == opt_view(*right)),
{
    match (left, right) {
        (Some(a), Some(b)) => crate::text::str_eq(a.as_str(), b.as_str()),
        (None, None) => true,
        _ => false,
    }
}

/// The difference of two optional values.
pub fn scalar_diff(left: Option<String>, right: Option<String>) -> (d: ScalarDifference)
    ensures
        d.kind == diff_kind(left is Some, right is Some, opt_view(left) == opt_view(right)),
        d.baseline == left,
        d.candidate == right,
{
    let equal = opt_str_eq(&left, &right);
    let kind = difference_kind(left.is_some(), right.is_some(), equal);
    ScalarDifference { kind, baseline: left, candidate: right }
}

// ---------------------------------------------------------------------------
// Timing
// ---------------------------------------------------------------------------

pub open spec fn clamp_i64(x: int) -> int {
    if x < i64::MIN {
        i64::MIN as int
    } else if x > i64::MAX {
        i64::MAX as int
    } else {
        x
    }
}

/// Division that rounds toward zero, as Rust's integer division does.
pub open spec fn trunc_div(a: int, b: int) -> int {
    if a >= 0 {
        a / b
    } else {
        -((-a) / b)
    }
}

/// `candidate - baseline`, held to the range of `i64`.
pub open spec fn delta_of(candidate: Option<u64>, baseline: Option<u64>) -> Option<i64> {
    match (candidate, baseline) {
        (Some(c), Some(b)) => Some(clamp_i64(c - b) as i64),
        _ => None,
    }
}

/// The change in percent of the baseline, rounded toward zero and held to
/// the range of `i64`; none where the baseline is missing or zero.
pub open spec fn percent_of(baseline: Option<u64>, candidate: Option<u64>) -> Option<i64> {
    match (baseline, candidate) {
        (Some(b), Some(c)) => if b == 0 {
            None
        } else {
            Some(clamp_i64(trunc_div((c - b) * 100, b as int)) as i64)
        },
        _ => None,
    }
}

fn clamp_to_i64(x: i128) -> (r: i64)
    ensures
        r == clamp_i64(x as int),
{
    if x < i64::MIN as i128 {
        i64::MIN
    } else if x > i64::MAX as i128 {
        i64::MAX
    } else {
        x as i64
    }
}

/// `candidate - baseline` where both are known.
pub fn signed_delta(candidate: Option<u64>, baseline: Option<u64>) -> (r: Option<i64>)
    ensures
        r == delta_of(candidate, baseline),
{
    match (candidate, baseline) {
        (Some(c), Some(b)) => Some(clamp_to_i64(c as i128 - b as i128)),
        _ => None,
    }
}

fn delta_percent(baseline: Option<u64>, candidate: Option<u64>) -> (r: Option<i64>)
    ensures
        r == percent_of(baseline, candidate),
{
    match (baseline, candidate) {
        (Some(b), Some(c)) => {
            if b == 0 {
                return None;
            }
            let bb: u128 = b as u128;
            let up = c >= b;
            let magnitude: u128 = if up { (c - b) as u128 } else { (b - c) as u128 };
            assert(magnitude * 100 <= 0xffff_ffff_ffff_ffffu128 * 100) by (nonlinear_arith)
                requires
                    magnitude <= 0xffff_ffff_ffff_ffffu128,
            ;
            let prod: u128 = magnitude * 100;
            let q: u128 = prod / bb;
            assert(q <= prod) by (nonlinear_arith)
                requires
                    q == prod / bb,
                    bb >= 1,
            ;
            if up {
                if q > i64::MAX as u128 {
                    Some(i64::MAX)
                } else {
                    Some(q as i64)
                }
            } else if q >= 0x8000_0000_0000_0000u128 {
                Some(i64::MIN)
            } else {
                Some(-(q as i64))
            }
        },
        _ => None,
    }
}

/// The total duration of a flow: its measured total, else its summary's.
pub open spec fn total_ms_of(flow: ComparableFlow) -> Option<u64> {
    match flow.detail.timing.total_ms {
        Some(ms) => Some(ms),
        None => flow.detail.summary.duration_ms,
    }
}

pub fn flow_total_ms(flow: &ComparableFlow) -> (r: Option<u64>)
    ensures
        r == total_ms_of(*flow),
{
    match flow.detail.timing.total_ms {
        Some(ms) => Some(ms),
        None => flow.detail.summary.duration_ms,
    }
}

/// The timing of two matched calls.
pub open spec fn timing_of(left: ComparableFlow, right: ComparableFlow) -> TimingDifference {
    TimingDifference {
        baseline_total_ms: total_ms_of(left),
        candidate_total_ms: total_ms_of(right),
        delta_ms: delta_of(total_ms_of(right), total_ms_of(left)),
        delta_percent: percent_of(total_ms_of(left), total_ms_of(right)),
        baseline_size_bytes: left.detail.summary.response_size_bytes,
        candidate_size_bytes: right.detail.summary.response_size_bytes,
        size_delta_bytes: delta_of(
            right.detail.summary.response_size_bytes,
            left.detail.summary.response_size_bytes,
        ),
    }
}

pub fn compare_timing(left: &ComparableFlow, right: &ComparableFlow) -> (t: TimingDifference)
    ensures
        t == timing_of(*left, *right),
{
    let baseline_total_ms = flow_total_ms(left);
    let candidate_total_ms = flow_total_ms(right);
    let baseline_size_bytes = left.detail.summary.response_size_bytes;
    let candidate_size_bytes = right.detail.summary.response_size_bytes;
    TimingDifference {
        baseline_total_ms,
        candidate_total_ms,
        delta_ms: signed_delta(candidate_total_ms, baseline_total_ms),
        delta_percent: delta_percent(baseline_total_ms, candidate_total_ms),
        baseline_size_bytes,
        candidate_size_bytes,
        size_delta_bytes: signed_delta(candidate_size_bytes, baseline_size_bytes),
    }
}

/// The timing of a call only one side made.
pub open spec fn one_sided_timing(total: Option<u64>, size: Option<u64>, baseline: bool) -> TimingDifference {
    TimingDifference {
        baseline_total_ms: if baseline { total } else { None },
        candidate_total_ms: if baseline { None } else { total },
        delta_ms: None,
        delta_percent: None,
        baseline_size_bytes: if baseline { size } else { None },
        candidate_size_bytes: if baseline { None } else { size },
        size_delta_bytes: None,
    }
}

/// Whether a flow failed: an error code, or a status of 400 or more.
pub open spec fn is_error_flow(flow: ComparableFlow) -> bool {
    flow.detail.error_code is Some || (flow.detail.summary.status_code matches Some(s) && s >= 400)
}

pub fn is_error(flow: &ComparableFlow) -> (r: bool)
    ensures
        r == is_error_flow(*flow),
{
    flow.detail.error_code.is_some() || match flow.detail.summary.status_code {
        Some(s) => s >= 400,
        None => false,
    }
}

/// The start of a flow in milliseconds: its `started_at` read as a
/// number, or zero where it is not one.
pub open spec fn timestamp_of(started_at: Seq<char>) -> u128 {
    match crate::text::parse_u128(started_at) {
        Some(v) => v,
        None => 0,
    }
}

pub fn timestamp_ms(value: &str) -> (r: u128)
    ensures
        r == timestamp_of(value@),
{
    match crate::text::parse_u128_exec(value) {
        Some(v) => v,
        None => 0,
    }
}


// ---------------------------------------------------------------------------
// The shape of a JSON document
// ---------------------------------------------------------------------------

/// A record of the shape: a JSON pointer and the type found there.
pub type ShapeRecord = (Seq<char>, Seq<char>);

/// How a member name is written in a pointer: `~` as `~0`, `/` as `~1`.
pub open spec fn escape_char(c: char) -> Seq<char> {
    if c == '~' {
        seq!['~', '0']
    } else if c == '/' {
        seq!['~', '1']
    } else {
        seq![c]
    }
}

pub open spec fn escape_key(key: Seq<char>) -> Seq<char>
    decreases key.len(),
{
    if key.len() == 0 {
        seq![]
    } else {
        escape_key(key.drop_last()) + escape_char(key.last())
    }
}

/// The pointer written for a path: the root is `/`.
pub open spec fn record_path(path: Seq<char>) -> Seq<char> {
    if path.len() == 0 {
        "/"@
    } else {
        path
    }
}

/// The records that flattening a document at `path` writes, in order: the
/// value itself, then each member under `path/name`, or the first 32 items
/// of an array under `path/*`.
pub open spec fn shape_records(value: JsonValue, path: Seq<char>) -> Seq<ShapeRecord>
    decreases value,
{
    let here = seq![(record_path(path), crate::json::kind_name(value))];
    match value {
        JsonValue::Object(members) => here + member_records(members@, path),
        JsonValue::Array(items) => here + item_records(items@, 32, path + seq!['/', '*']),
        _ => here,
    }
}

pub open spec fn member_records(members: Seq<(String, JsonValue)>, path: Seq<char>) -> Seq<ShapeRecord>
    decreases members,
{
    if members.len() == 0 {
        seq![]
    } else {
        shape_records(members[0].1, path + seq!['/'] + escape_key(members[0].0@)) + member_records(
            members.drop_first(),
            path,
        )
    }
}

pub open spec fn item_records(items: Seq<JsonValue>, limit: nat, path: Seq<char>) -> Seq<ShapeRecord>
    decreases items,
{
    if items.len() == 0 || limit == 0 {
        seq![]
    } else {
        shape_records(items[0], path) + item_records(items.drop_first(), (limit - 1) as nat, path)
    }
}

/// The type the shape gives a pointer: the last record written for it.
pub open spec fn shape_type(records: Seq<ShapeRecord>, pointer: Seq<char>) -> Option<Seq<char>>
    decreases records.len(),
{
    if records.len() == 0 {
        None
    } else if records.last().0 == pointer {
        Some(records.last().1)
    } else {
        shape_type(records.drop_last(), pointer)
    }
}

/// The records of a document.
pub open spec fn document_shape(value: JsonValue) -> Seq<ShapeRecord> {
    shape_records(value, seq![])
}

pub open spec fn record_views(records: Seq<(Vec<char>, Vec<char>)>) -> Seq<ShapeRecord> {
    records.map_values(|r: (Vec<char>, Vec<char>)| (r.0@, r.1@))
}

pub open spec fn record_pointers(records: Seq<ShapeRecord>) -> Seq<Seq<char>> {
    records.map_values(|r: ShapeRecord| r.0)
}

pub open spec fn change_pointers(changes: Seq<JsonTypeChange>) -> Seq<Seq<char>> {
    changes.map_values(|c: JsonTypeChange| c.pointer@)
}

/// `d` is the shape difference from `left` to `right`: the pointers only
/// `right` has, those only `left` has, and those whose type changed, each
/// list in ascending order.
pub open spec fn is_shape_difference(left: Seq<ShapeRecord>, right: Seq<ShapeRecord>, d: JsonShapeDifference) -> bool {
    let added = crate::order::string_views(d.added_paths@);
    let removed = crate::order::string_views(d.removed_paths@);
    let changed = change_pointers(d.type_changes@);
    &&& crate::order::strictly_sorted(added)
    &&& crate::order::strictly_sorted(removed)
    &&& crate::order::strictly_sorted(changed)
    &&& forall|p: Seq<char>| #[trigger] added.contains(p) <==> (shape_type(left, p) is None && shape_type(right, p) is Some)
    &&& forall|p: Seq<char>| #[trigger] removed.contains(p) <==> (shape_type(left, p) is Some && shape_type(right, p) is None)
    &&& forall|p: Seq<char>| #[trigger] changed.contains(p) <==> (shape_type(left, p) is Some && shape_type(right, p) is Some
        && shape_type(left, p) != shape_type(right, p))
    &&& forall|i: int| 0 <= i < d.type_changes@.len() ==> {
        let c = #[trigger] d.type_changes@[i];
        &&& shape_type(left, c.pointer@) == Some(c.baseline_type@)
        &&& shape_type(right, c.pointer@) == Some(c.candidate_type@)
    }
}

/// Two shapes agree when every pointer has the same type in both.
pub open spec fn shapes_agree(left: Seq<ShapeRecord>, right: Seq<ShapeRecord>) -> bool {
    forall|p: Seq<char>| #[trigger] shape_type(left, p) == shape_type(right, p)
}

fn escaped_key(key: &String) -> (r: Vec<char>)
    ensures
        r@ == escape_key(key@),
{
    let k = crate::text::chars_of(key.as_str());
    let mut r: Vec<char> = Vec::new();
    for i in 0..k.len()
        invariant
            k@ == key@,
            r@ == escape_key(k@.take(i as int)),
    {
        let c = k[i];
        if c == '~' {
            r.push('~');
            r.push('0');
        } else if c == '/' {
            r.push('~');
            r.push('1');
        } else {
            r.push(c);
        }
        assert(k@.take(i + 1).drop_last() == k@.take(i as int));
        assert(r@ == escape_key(k@.take(i as int)) + escape_char(c));
    }
    assert(k@.take(k.len() as int) == k@);
    r
}

/// Appends the records of `value` at `path` to `out`.
fn flatten_json_shape(value: &JsonValue, path: &Vec<char>, out: &mut Vec<(Vec<char>, Vec<char>)>)
    ensures
        record_views(final(out)@) == record_views(old(out)@) + shape_records(*value, path@),
    decreases value,
{
    let ghost start = record_views(out@);
    let mut pointer: Vec<char> = Vec::new();
    if path.len() == 0 {
        pointer.push('/');
        proof {
            reveal_strlit("/");
        }
    } else {
        crate::text::extend_chars(&mut pointer, path);
    }
    assert(pointer@ == record_path(path@));
    let kind = crate::text::chars_of(crate::json::json_type(value));
    let ghost item = (pointer@, kind@);
    out.push((pointer, kind));
    assert(record_views(out@) =~= start.push(item));
    let ghost base = record_views(out@);
    match value {
        JsonValue::Object(members) => {
            let mut i: usize = 0;
            assert(members@.skip(0) == members@);
            while i < members.len()
                invariant
                    *value == JsonValue::Object(*members),
                    i <= members@.len(),
                    record_views(out@) + member_records(members@.skip(i as int), path@)
                        == base + member_records(members@, path@),
                decreases members@.len() - i,
            {
                let mut child_path: Vec<char> = Vec::new();
                crate::text::extend_chars(&mut child_path, path);
                child_path.push('/');
                let escaped = escaped_key(&members[i].0);
                crate::text::extend_chars(&mut child_path, &escaped);
                assert(child_path@ == path@ + seq!['/'] + escape_key(members@[i as int].0@));
                proof {
                    assert(decreases_to!(*value => (*value)->Object_0));
                    assert(decreases_to!(*members => members@));
                    assert(decreases_to!(members@ => members@[i as int]));
                    assert(decreases_to!(members@[i as int] => members@[i as int].1));
                }
                flatten_json_shape(&members[i].1, &child_path, out);
                let ghost rest = members@.skip(i as int);
                assert(rest[0] == members@[i as int]);
                assert(rest.drop_first() == members@.skip(i + 1));
                assert(member_records(rest, path@) == shape_records(members@[i as int].1, child_path@)
                    + member_records(members@.skip(i + 1), path@));
                i = i + 1;
            }
            assert(members@.skip(members@.len() as int) == Seq::<(String, JsonValue)>::empty());
        },
        JsonValue::Array(items) => {
            let mut child_path: Vec<char> = Vec::new();
            crate::text::extend_chars(&mut child_path, path);
            child_path.push('/');
            child_path.push('*');
            assert(child_path@ == path@ + seq!['/', '*']);
            let mut i: usize = 0;
            assert(items@.skip(0) == items@);
            while i < items.len() && i < 32
                invariant
                    *value == JsonValue::Array(*items),
                    i <= items@.len(),
                    i <= 32,
                    child_path@ == path@ + seq!['/', '*'],
                    record_views(out@) + item_records(items@.skip(i as int), (32 - i) as nat, child_path@)
                        == base + item_records(items@, 32, child_path@),
                decreases items@.len() - i,
            {
                proof {
                    assert(decreases_to!(*value => (*value)->Array_0));
                    assert(decreases_to!(*items => items@));
                    assert(decreases_to!(items@ => items@[i as int]));
                }
                flatten_json_shape(&items[i], &child_path, out);
                let ghost rest = items@.skip(i as int);
                assert(rest[0] == items@[i as int]);
                assert(rest.drop_first() == items@.skip(i + 1));
                i = i + 1;
            }
            assert(item_records(items@.skip(i as int), (32 - i) as nat, child_path@) == Seq::<ShapeRecord>::empty());
        },
        _ => {},
    }
}


/// A pointer has a type in the shape exactly when some record names it.
pub proof fn lemma_shape_type_some(records: Seq<ShapeRecord>, pointer: Seq<char>)
    ensures
        shape_type(records, pointer) is Some <==> record_pointers(records).contains(pointer),
    decreases records.len(),
{
    if records.len() > 0 {
        lemma_shape_type_some(records.drop_last(), pointer);
        let init = record_pointers(records.drop_last());
        let all = record_pointers(records);
        assert(all == init.push(records.last().0));
        if init.contains(pointer) {
            let k = choose|k: int| 0 <= k < init.len() && init[k] == pointer;
            assert(all[k] == pointer);
        }
        if all.contains(pointer) && records.last().0 != pointer {
            let k = choose|k: int| 0 <= k < all.len() && all[k] == pointer;
            assert(init[k] == pointer);
        }
        if records.last().0 == pointer {
            assert(all[all.len() - 1] == pointer);
        }
    }
}

/// The index of the last record written for `pointer`, if any.
fn last_record(records: &Vec<(Vec<char>, Vec<char>)>, pointer: &Vec<char>) -> (r: Option<usize>)
    ensures
        match r {
            Some(i) => i < records@.len() && shape_type(record_views(records@), pointer@) == Some(
                records@[i as int].1@,
            ),
            None => shape_type(record_views(records@), pointer@) is None,
        },
{
    let ghost all = record_views(records@);
    let mut i = records.len();
    assert(all.take(i as int) == all);
    while i > 0
        invariant
            i <= records@.len(),
            all == record_views(records@),
            shape_type(all, pointer@) == shape_type(all.take(i as int), pointer@),
        decreases i,
    {
        i = i - 1;
        let ghost prefix = all.take(i + 1);
        assert(prefix.last() == (records@[i as int].0@, records@[i as int].1@));
        assert(prefix.drop_last() == all.take(i as int));
        if crate::text::chars_eq(&records[i].0, pointer) {
            return Some(i);
        }
    }
    None
}

/// The pointers of the records, ascending and without repeats.
fn shape_pointers(records: &Vec<(Vec<char>, Vec<char>)>) -> (r: Vec<String>)
    ensures
        crate::order::strictly_sorted(crate::order::string_views(r@)),
        crate::order::string_views(r@).to_set() == record_pointers(record_views(records@)).to_set(),
{
    let ghost all = record_pointers(record_views(records@));
    let mut r: Vec<String> = Vec::new();
    for i in 0..records.len()
        invariant
            all == record_pointers(record_views(records@)),
            crate::order::strictly_sorted(crate::order::string_views(r@)),
            crate::order::string_views(r@).to_set() == all.take(i as int).to_set(),
    {
        let p = crate::text::string_of(&records[i].0);
        crate::order::insert_sorted_unique(&mut r, p);
        assert(all.take(i + 1) == all.take(i as int).push(records@[i as int].0@));
        proof {
            crate::order::lemma_push_to_set(all.take(i as int), records@[i as int].0@);
        }
    }
    assert(all.take(records@.len() as int) == all);
    r
}

/// The records of a whole document.
fn document_records(value: &JsonValue) -> (r: Vec<(Vec<char>, Vec<char>)>)
    ensures
        record_views(r@) == document_shape(*value),
{
    let mut out: Vec<(Vec<char>, Vec<char>)> = Vec::new();
    let root: Vec<char> = Vec::new();
    assert(record_views(out@) == Seq::<ShapeRecord>::empty());
    flatten_json_shape(value, &root, &mut out);
    assert(root@ == Seq::<char>::empty());
    out
}

/// The pointers that `right` adds to the shape of `left`, those it removes,
/// and those whose type it changes.
pub fn compare_json_shape(left: &JsonValue, right: &JsonValue) -> (d: JsonShapeDifference)
    ensures
        is_shape_difference(document_shape(*left), document_shape(*right), d),
{
    let lrec = document_records(left);
    let rrec = document_records(right);
    let ghost lv = record_views(lrec@);
    let ghost rv = record_views(rrec@);
    let lpaths = shape_pointers(&lrec);
    let rpaths = shape_pointers(&rrec);
    let ghost lp = crate::order::string_views(lpaths@);
    let ghost rp = crate::order::string_views(rpaths@);
    let ghost added_pred = |p: Seq<char>| shape_type(lv, p) is None && shape_type(rv, p) is Some;
    let ghost removed_pred = |p: Seq<char>| shape_type(lv, p) is Some && shape_type(rv, p) is None;
    let ghost changed_pred = |p: Seq<char>|
        shape_type(lv, p) is Some && shape_type(rv, p) is Some && shape_type(lv, p) != shape_type(rv, p);
    let mut added: Vec<String> = Vec::new();
    for i in 0..rpaths.len()
        invariant
            rp == crate::order::string_views(rpaths@),
            rv == record_views(rrec@),
            lv == record_views(lrec@),
            rp.to_set() == record_pointers(rv).to_set(),
            forall|p: Seq<char>| #[trigger] added_pred(p) == (shape_type(lv, p) is None && shape_type(rv, p) is Some),
            crate::order::string_views(added@) == rp.take(i as int).filter(added_pred),
    {
        let pc = crate::text::chars_of(rpaths[i].as_str());
        let found = last_record(&lrec, &pc);
        proof {
            assert(rp[i as int] == rpaths@[i as int]@);
            assert(pc@ == rp[i as int]);
            assert(rp.contains(rp[i as int]));
            assert(rp.to_set().contains(rp[i as int]));
            lemma_shape_type_some(rv, rp[i as int]);
            assert(rp.take(i + 1) == rp.take(i as int).push(rp[i as int]));
            rp.take(i as int).lemma_filter_push(rp[i as int], added_pred);
            assert(shape_type(rv, rp[i as int]) is Some);
            assert(added_pred(rp[i as int]) == found.is_none());
        }
        if found.is_none() {
            let ghost before = crate::order::string_views(added@);
            added.push(copy_string(&rpaths[i]));
            assert(crate::order::string_views(added@) == before.push(rp[i as int]));
        }
    }
    let mut removed: Vec<String> = Vec::new();
    let mut type_changes: Vec<JsonTypeChange> = Vec::new();
    for i in 0..lpaths.len()
        invariant
            lp == crate::order::string_views(lpaths@),
            rv == record_views(rrec@),
            lv == record_views(lrec@),
            lp.to_set() == record_pointers(lv).to_set(),
            forall|p: Seq<char>| #[trigger] removed_pred(p) == (shape_type(lv, p) is Some && shape_type(rv, p) is None),
            forall|p: Seq<char>| #[trigger] changed_pred(p) == (shape_type(lv, p) is Some && shape_type(rv, p) is Some
                && shape_type(lv, p) != shape_type(rv, p)),
            crate::order::string_views(removed@) == lp.take(i as int).filter(removed_pred),
            change_pointers(type_changes@) == lp.take(i as int).filter(changed_pred),
            forall|k: int| 0 <= k < type_changes@.len() ==> {
                let c = #[trigger] type_changes@[k];
                &&& shape_type(lv, c.pointer@) == Some(c.baseline_type@)
                &&& shape_type(rv, c.pointer@) == Some(c.candidate_type@)
            },
    {
        let pc = crate::text::chars_of(lpaths[i].as_str());
        let in_left = last_record(&lrec, &pc);
        let in_right = last_record(&rrec, &pc);
        let ghost p = lp[i as int];
        proof {
            assert(p == lpaths@[i as int]@);
            assert(pc@ == p);
            assert(lp.contains(p));
            assert(lp.to_set().contains(p));
            lemma_shape_type_some(lv, p);
            assert(lp.take(i + 1) == lp.take(i as int).push(p));
            lp.take(i as int).lemma_filter_push(p, removed_pred);
            lp.take(i as int).lemma_filter_push(p, changed_pred);
            assert(shape_type(lv, p) is Some);
            assert(in_left is Some);
            assert(removed_pred(p) == in_right.is_none());
        }
        match (in_left, in_right) {
            (Some(a), None) => {
                let ghost before = crate::order::string_views(removed@);
                removed.push(copy_string(&lpaths[i]));
                assert(crate::order::string_views(removed@) == before.push(p));
            },
            (Some(a), Some(b)) => {
                assert(changed_pred(p) == (lrec@[a as int].1@ != rrec@[b as int].1@));
                if !crate::text::chars_eq(&lrec[a].1, &rrec[b].1) {
                    let ghost before = change_pointers(type_changes@);
                    let change = JsonTypeChange {
                        pointer: copy_string(&lpaths[i]),
                        baseline_type: crate::text::string_of(&lrec[a].1),
                        candidate_type: crate::text::string_of(&rrec[b].1),
                    };
                    type_changes.push(change);
                    assert(change_pointers(type_changes@) == before.push(p));
                }
            },
            _ => {},
        }
    }
    proof {
        assert(rp.take(rp.len() as int) == rp);
        assert(lp.take(lp.len() as int) == lp);
        crate::order::lemma_filter_strictly_sorted(rp, added_pred);
        crate::order::lemma_filter_strictly_sorted(lp, removed_pred);
        crate::order::lemma_filter_strictly_sorted(lp, changed_pred);
        assert forall|p: Seq<char>| #[trigger] rp.contains(p) <==> shape_type(rv, p) is Some by {
            lemma_shape_type_some(rv, p);
            assert(rp.to_set().contains(p) == record_pointers(rv).to_set().contains(p));
        }
        assert forall|p: Seq<char>| #[trigger] lp.contains(p) <==> shape_type(lv, p) is Some by {
            lemma_shape_type_some(lv, p);
            assert(lp.to_set().contains(p) == record_pointers(lv).to_set().contains(p));
        }
    }
    JsonShapeDifference { added_paths: added, removed_paths: removed, type_changes }
}


// ---------------------------------------------------------------------------
// Named values: headers and query parameters
// ---------------------------------------------------------------------------

/// A named value, such as a header or a query parameter.
pub type Entry = (Seq<char>, Seq<char>);

pub open spec fn entry_views(entries: Seq<(String, String)>) -> Seq<Entry> {
    entries.map_values(|e: (String, String)| (e.0@, e.1@))
}

pub open spec fn entry_names(entries: Seq<Entry>) -> Seq<Seq<char>> {
    entries.map_values(|e: Entry| e.0)
}

/// The values given under `name`, in order.
pub open spec fn values_for(entries: Seq<Entry>, name: Seq<char>) -> Seq<Seq<char>>
    decreases entries.len(),
{
    if entries.len() == 0 {
        seq![]
    } else if entries.last().0 == name {
        values_for(entries.drop_last(), name).push(entries.last().1)
    } else {
        values_for(entries.drop_last(), name)
    }
}

/// How the values under `name` differ: the same when both sides give the
/// same values, counted with repeats, in any order.
pub open spec fn group_kind(left: Seq<Entry>, right: Seq<Entry>, name: Seq<char>) -> DifferenceKind {
    let l = values_for(left, name);
    let r = values_for(right, name);
    diff_kind(l.len() > 0, r.len() > 0, l.to_multiset() == r.to_multiset())
}

pub open spec fn difference_names(ds: Seq<HeaderDifference>) -> Seq<Seq<char>> {
    ds.map_values(|d: HeaderDifference| d.name@)
}

/// `ds` reports, in ascending order of name, each name that either side
/// uses and under which the values differ, with the values of each side
/// sorted.
pub open spec fn is_group_difference(left: Seq<Entry>, right: Seq<Entry>, ds: Seq<HeaderDifference>) -> bool {
    let names = difference_names(ds);
    &&& crate::order::strictly_sorted(names)
    &&& forall|n: Seq<char>| #[trigger] names.contains(n) <==> ((entry_names(left).contains(n)
        || entry_names(right).contains(n)) && group_kind(left, right, n) != DifferenceKind::Same)
    &&& forall|i: int| 0 <= i < ds.len() ==> {
        let d = #[trigger] ds[i];
        &&& d.kind == group_kind(left, right, d.name@)
        &&& crate::order::sorted_le(crate::order::string_views(d.baseline@))
        &&& crate::order::string_views(d.baseline@).to_multiset() == values_for(left, d.name@).to_multiset()
        &&& crate::order::sorted_le(crate::order::string_views(d.candidate@))
        &&& crate::order::string_views(d.candidate@).to_multiset() == values_for(right, d.name@).to_multiset()
    }
}

/// The values given under `name`, in order.
fn collect_values(entries: &Vec<(String, String)>, name: &String) -> (r: Vec<String>)
    ensures
        crate::order::string_views(r@) == values_for(entry_views(entries@), name@),
{
    let ghost all = entry_views(entries@);
    let mut r: Vec<String> = Vec::new();
    for i in 0..entries.len()
        invariant
            all == entry_views(entries@),
            crate::order::string_views(r@) == values_for(all.take(i as int), name@),
    {
        assert(all.take(i + 1).drop_last() == all.take(i as int));
        assert(all.take(i + 1).last() == (entries@[i as int].0@, entries@[i as int].1@));
        if crate::text::str_eq(entries[i].0.as_str(), name.as_str()) {
            let ghost before = crate::order::string_views(r@);
            r.push(copy_string(&entries[i].1));
            assert(crate::order::string_views(r@) == before.push(entries@[i as int].1@));
        }
    }
    assert(all.take(entries@.len() as int) == all);
    r
}

/// The names used by either side, ascending and without repeats.
fn all_names(left: &Vec<(String, String)>, right: &Vec<(String, String)>) -> (r: Vec<String>)
    ensures
        crate::order::strictly_sorted(crate::order::string_views(r@)),
        forall|n: Seq<char>| #[trigger] crate::order::string_views(r@).contains(n) <==> (entry_names(
            entry_views(left@),
        ).contains(n) || entry_names(entry_views(right@)).contains(n)),
{
    let ghost ln = entry_names(entry_views(left@));
    let ghost rn = entry_names(entry_views(right@));
    let mut r: Vec<String> = Vec::new();
    for i in 0..left.len()
        invariant
            ln == entry_names(entry_views(left@)),
            crate::order::strictly_sorted(crate::order::string_views(r@)),
            crate::order::string_views(r@).to_set() == ln.take(i as int).to_set(),
    {
        crate::order::insert_sorted_unique(&mut r, copy_string(&left[i].0));
        assert(ln.take(i + 1) == ln.take(i as int).push(left@[i as int].0@));
        proof {
            crate::order::lemma_push_to_set(ln.take(i as int), left@[i as int].0@);
        }
    }
    assert(ln.take(left@.len() as int) == ln);
    for i in 0..right.len()
        invariant
            ln == entry_names(entry_views(left@)),
            rn == entry_names(entry_views(right@)),
            crate::order::strictly_sorted(crate::order::string_views(r@)),
            crate::order::string_views(r@).to_set() == ln.to_set() + rn.take(i as int).to_set(),
    {
        crate::order::insert_sorted_unique(&mut r, copy_string(&right[i].0));
        assert(rn.take(i + 1) == rn.take(i as int).push(right@[i as int].0@));
        proof {
            crate::order::lemma_push_to_set(rn.take(i as int), right@[i as int].0@);
            assert(ln.to_set() + rn.take(i + 1).to_set() =~= (ln.to_set() + rn.take(i as int).to_set()).insert(
                right@[i as int].0@,
            ));
        }
    }
    assert(rn.take(right@.len() as int) == rn);
    proof {
        assert forall|n: Seq<char>| #[trigger] crate::order::string_views(r@).contains(n) <==> (ln.contains(n)
            || rn.contains(n)) by {
            assert(crate::order::string_views(r@).to_set().contains(n) == crate::order::string_views(r@).contains(n));
            assert(ln.to_set().contains(n) == ln.contains(n));
            assert(rn.to_set().contains(n) == rn.contains(n));
        }
    }
    r
}

/// Sorted sequences are equal exactly when they hold the same elements.
proof fn lemma_sorted_equal_iff_multiset(a: Seq<Seq<char>>, b: Seq<Seq<char>>)
    requires
        crate::order::sorted_le(a),
        crate::order::sorted_le(b),
    ensures
        (a == b) <==> (a.to_multiset() == b.to_multiset()),
{
    if a.to_multiset() == b.to_multiset() {
        crate::order::lemma_sorted_multiset_unique(a, b);
    }
}

/// The names whose values differ between two lists of named values.
fn compare_groups(left: &Vec<(String, String)>, right: &Vec<(String, String)>) -> (ds: Vec<HeaderDifference>)
    ensures
        is_group_difference(entry_views(left@), entry_views(right@), ds@),
{
    let ghost lv = entry_views(left@);
    let ghost rv = entry_views(right@);
    let names = all_names(left, right);
    let ghost ns = crate::order::string_views(names@);
    let ghost pred = |n: Seq<char>| group_kind(lv, rv, n) != DifferenceKind::Same;
    let mut ds: Vec<HeaderDifference> = Vec::new();
    for i in 0..names.len()
        invariant
            lv == entry_views(left@),
            rv == entry_views(right@),
            ns == crate::order::string_views(names@),
            forall|n: Seq<char>| #[trigger] pred(n) == (group_kind(lv, rv, n) != DifferenceKind::Same),
            difference_names(ds@) == ns.take(i as int).filter(pred),
            forall|k: int| 0 <= k < ds@.len() ==> {
                let d = #[trigger] ds@[k];
                &&& d.kind == group_kind(lv, rv, d.name@)
                &&& crate::order::sorted_le(crate::order::string_views(d.baseline@))
                &&& crate::order::string_views(d.baseline@).to_multiset() == values_for(lv, d.name@).to_multiset()
                &&& crate::order::sorted_le(crate::order::string_views(d.candidate@))
                &&& crate::order::string_views(d.candidate@).to_multiset() == values_for(rv, d.name@).to_multiset()
            },
    {
        let name = &names[i];
        let baseline_values = collect_values(left, name);
        let candidate_values = collect_values(right, name);
        let baseline = crate::order::sort_strings(&baseline_values);
        let candidate = crate::order::sort_strings(&candidate_values);
        let equal = crate::order::strings_eq(&baseline, &candidate);
        let ghost n = name@;
        proof {
            lemma_sorted_equal_iff_multiset(
                crate::order::string_views(baseline@),
                crate::order::string_views(candidate@),
            );
            crate::order::string_views(baseline_values@).to_multiset_ensures();
            crate::order::string_views(candidate_values@).to_multiset_ensures();
            assert(ns[i as int] == n);
            assert(ns.take(i + 1) == ns.take(i as int).push(n));
            ns.take(i as int).lemma_filter_push(n, pred);
        }
        let kind = difference_kind(baseline_values.len() > 0, candidate_values.len() > 0, equal);
        assert(kind == group_kind(lv, rv, n));
        if kind != DifferenceKind::Same {
            let ghost before = difference_names(ds@);
            ds.push(HeaderDifference { name: copy_string(name), kind, baseline, candidate });
            assert(difference_names(ds@) == before.push(n));
        }
    }
    proof {
        assert(ns.take(ns.len() as int) == ns);
        crate::order::lemma_filter_strictly_sorted(ns, pred);
    }
    ds
}


/// The header the studio adds to correlate its own requests.
pub const INTERNAL_CORRELATION_HEADER: &'static str = "x-mobile-api-studio-request-id";

/// The name under which a header is compared: trimmed, in lower case.
pub open spec fn header_key(h: HeaderValue) -> Seq<char> {
    crate::text::seq_lower(crate::text::trim(h.name@))
}

/// Headers left out of a comparison: the studio's own correlation header
/// and the framing headers.
pub open spec fn ignored_in_comparison(name: Seq<char>) -> bool {
    name == INTERNAL_CORRELATION_HEADER@ || name == "content-length"@ || name == "transfer-encoding"@
}

/// The value under which a header is compared: sensitive ones redacted.
pub open spec fn compared_value(h: HeaderValue) -> Seq<char> {
    if h.sensitive {
        "<redacted>"@
    } else {
        h.value@
    }
}

/// The headers as compared, in order.
pub open spec fn header_entries(headers: Seq<HeaderValue>) -> Seq<Entry>
    decreases headers.len(),
{
    if headers.len() == 0 {
        seq![]
    } else if ignored_in_comparison(header_key(headers.last())) {
        header_entries(headers.drop_last())
    } else {
        header_entries(headers.drop_last()).push((header_key(headers.last()), compared_value(headers.last())))
    }
}

fn normalized_headers(headers: &Vec<HeaderValue>) -> (r: Vec<(String, String)>)
    ensures
        entry_views(r@) == header_entries(headers@),
{
    let mut r: Vec<(String, String)> = Vec::new();
    for i in 0..headers.len()
        invariant
            entry_views(r@) == header_entries(headers@.take(i as int)),
    {
        let h = &headers[i];
        let trimmed = crate::text::trimmed(h.name.as_str());
        let name = crate::text::to_lower(trimmed.as_str());
        assert(headers@.take(i + 1).drop_last() == headers@.take(i as int));
        assert(headers@.take(i + 1).last() == *h);
        let ignored = crate::text::str_eq(name.as_str(), INTERNAL_CORRELATION_HEADER) || crate::text::str_eq(
            name.as_str(),
            "content-length",
        ) || crate::text::str_eq(name.as_str(), "transfer-encoding");
        if !ignored {
            let value = if h.sensitive {
                crate::text::owned("<redacted>")
            } else {
                copy_string(&h.value)
            };
            let ghost before = entry_views(r@);
            let ghost item = (name@, value@);
            r.push((name, value));
            assert(entry_views(r@) == before.push(item));
        }
    }
    assert(headers@.take(headers@.len() as int) == headers@);
    r
}

/// The header differences of two header lists.
pub fn compare_headers(left: &Vec<HeaderValue>, right: &Vec<HeaderValue>) -> (ds: Vec<HeaderDifference>)
    ensures
        is_group_difference(header_entries(left@), header_entries(right@), ds@),
{
    let l = normalized_headers(left);
    let r = normalized_headers(right);
    compare_groups(&l, &r)
}

/// The value of a hexadecimal digit.
pub open spec fn hex_value(b: u8) -> Option<u8> {
    if 48 <= b <= 57 {
        Some((b - 48) as u8)
    } else if 97 <= b <= 102 {
        Some((b - 97 + 10) as u8)
    } else if 65 <= b <= 70 {
        Some((b - 65 + 10) as u8)
    } else {
        None
    }
}

pub fn hex(value: u8) -> (r: Option<u8>)
    ensures
        r == hex_value(value),
{
    if 48 <= value && value <= 57 {
        Some(value - 48)
    } else if 97 <= value && value <= 102 {
        Some(value - 97 + 10)
    } else if 65 <= value && value <= 70 {
        Some(value - 65 + 10)
    } else {
        None
    }
}

/// Form decoding of bytes: `+` is a space, `%` and two hexadecimal digits
/// is the byte they spell, anything else stays.
pub open spec fn percent_bytes(b: Seq<u8>) -> Seq<u8>
    decreases b.len(),
{
    if b.len() == 0 {
        seq![]
    } else if b[0] == 43 {
        seq![32u8] + percent_bytes(b.drop_first())
    } else if b[0] == 37 && 2 < b.len() && hex_value(b[1]) is Some && hex_value(b[2]) is Some {
        seq![(hex_value(b[1])->0 * 16 + hex_value(b[2])->0) as u8] + percent_bytes(b.skip(3))
    } else {
        seq![b[0]] + percent_bytes(b.drop_first())
    }
}

/// What `String::from_utf8_lossy` makes of some bytes.
pub uninterp spec fn utf8_lossy(bytes: Seq<u8>) -> Seq<char>;

/// `String::from_utf8_lossy`: the text of the bytes, with each invalid
/// sequence replaced. The contract names the result and states what the
/// documentation gives for valid UTF-8: the text it encodes.
#[verifier::external_body]
pub(crate) fn lossy_text(bytes: &[u8]) -> (r: String)
    ensures
        r@ == utf8_lossy(bytes@),
        vstd::utf8::valid_utf8(bytes@) ==> r@ == vstd::utf8::decode_utf8(bytes@),
{
    String::from_utf8_lossy(bytes).into_owned()
}

/// A query component, form-decoded.
pub open spec fn percent_decoded(s: Seq<char>) -> Seq<char> {
    utf8_lossy(percent_bytes(vstd::utf8::encode_utf8(s)))
}

pub fn percent_decode(value: &str) -> (r: String)
    ensures
        r@ == percent_decoded(value@),
{
    let bytes = value.as_bytes();
    let mut out: Vec<u8> = Vec::new();
    let mut index: usize = 0;
    assert(bytes@.skip(0) == bytes@);
    while index < bytes.len()
        invariant
            index <= bytes@.len(),
            bytes@ == vstd::utf8::encode_utf8(value@),
            out@ + percent_bytes(bytes@.skip(index as int)) == percent_bytes(bytes@),
        decreases bytes@.len() - index,
    {
        let ghost rest = bytes@.skip(index as int);
        assert(rest[0] == bytes@[index as int]);
        assert(rest.drop_first() == bytes@.skip(index + 1));
        let b = bytes[index];
        if b == 43 {
            out.push(32);
            index = index + 1;
            assert(out@ + percent_bytes(bytes@.skip(index as int)) == percent_bytes(bytes@));
        } else if b == 37 && bytes.len() - index > 2 {
            let high = hex(bytes[index + 1]);
            let low = hex(bytes[index + 2]);
            assert(rest[1] == bytes@[index + 1]);
            assert(rest[2] == bytes@[index + 2]);
            match (high, low) {
                (Some(h), Some(l)) => {
                    assert(rest.skip(3) == bytes@.skip(index + 3));
                    out.push(h * 16 + l);
                    index = index + 3;
                    assert(out@ + percent_bytes(bytes@.skip(index as int)) == percent_bytes(bytes@));
                },
                _ => {
                    out.push(b);
                    index = index + 1;
                    assert(out@ + percent_bytes(bytes@.skip(index as int)) == percent_bytes(bytes@));
                },
            }
        } else {
            out.push(b);
            index = index + 1;
            assert(out@ + percent_bytes(bytes@.skip(index as int)) == percent_bytes(bytes@));
        }
    }
    assert(bytes@.skip(index as int) == Seq::<u8>::empty());
    assert(out@ == percent_bytes(bytes@));
    lossy_text(out.as_slice())
}

/// A `key=value` pair of a query; a pair without `=` is a key with an
/// empty value.
pub open spec fn query_pair(pair: Seq<char>) -> (Seq<char>, Seq<char>) {
    match crate::text::find_from(pair, seq!['='], 0) {
        Some(i) => (pair.take(i), pair.skip(i + 1)),
        None => (pair, seq![]),
    }
}

/// The decoded parameters of the pairs of a query, empty pairs skipped.
pub open spec fn pair_entries(pairs: Seq<Seq<char>>) -> Seq<Entry>
    decreases pairs.len(),
{
    if pairs.len() == 0 {
        seq![]
    } else if pairs.last().len() == 0 {
        pair_entries(pairs.drop_last())
    } else {
        let kv = query_pair(pairs.last());
        pair_entries(pairs.drop_last()).push((percent_decoded(kv.0), percent_decoded(kv.1)))
    }
}

/// The parameters of a query string, in order.
pub open spec fn query_entries(query: Option<Seq<char>>) -> Seq<Entry> {
    match query {
        Some(q) => pair_entries(crate::endpoint::split_on(q, '&')),
        None => seq![],
    }
}

fn parse_query(query: &Option<String>) -> (r: Vec<(String, String)>)
    ensures
        entry_views(r@) == query_entries(opt_view(*query)),
{
    let mut r: Vec<(String, String)> = Vec::new();
    match query {
        None => {
            assert(entry_views(r@) == Seq::<Entry>::empty());
            r
        },
        Some(q) => {
            let chars = crate::text::chars_of(q.as_str());
            let pairs = crate::endpoint::split_chars(&chars, '&');
            let ghost ps = crate::endpoint::views(pairs@);
            let mut eq: Vec<char> = Vec::new();
            eq.push('=');
            assert(eq@ == seq!['=']);
            for i in 0..pairs.len()
                invariant
                    ps == crate::endpoint::views(pairs@),
                    eq@ == seq!['='],
                    entry_views(r@) == pair_entries(ps.take(i as int)),
            {
                let pair = &pairs[i];
                assert(ps.take(i + 1).drop_last() == ps.take(i as int));
                assert(ps.take(i + 1).last() == pair@);
                if pair.len() > 0 {
                    let (key, value) = match crate::text::find_exec(pair, &eq, 0) {
                        Some(k) => {
                            proof {
                                crate::text::lemma_find_from_some(pair@, seq!['='], 0);
                            }
                            assert(k + 1 <= pair@.len());
                            assert(pair@.len() == pair.len());
                            (crate::text::slice_chars(pair, 0, k), crate::text::slice_chars(pair, k + 1, pair.len()))
                        },
                        None => (crate::text::slice_chars(pair, 0, pair.len()), Vec::new()),
                    };
                    assert(key@ == query_pair(pair@).0);
                    assert(value@ == query_pair(pair@).1);
                    let key_text = crate::text::string_of(&key);
                    let value_text = crate::text::string_of(&value);
                    let k = percent_decode(key_text.as_str());
                    let v = percent_decode(value_text.as_str());
                    let ghost before = entry_views(r@);
                    let ghost item = (k@, v@);
                    r.push((k, v));
                    assert(entry_views(r@) == before.push(item));
                }
            }
            assert(ps.take(ps.len() as int) == ps);
            r
        },
    }
}

/// A query difference read as a header difference: the same four fields.
pub open spec fn as_group(d: QueryDifference) -> HeaderDifference {
    HeaderDifference { name: d.name, kind: d.kind, baseline: d.baseline, candidate: d.candidate }
}

/// The query differences of two optional query strings.
pub fn compare_query(left: &Option<String>, right: &Option<String>) -> (ds: Vec<QueryDifference>)
    ensures
        is_group_difference(
            query_entries(opt_view(*left)),
            query_entries(opt_view(*right)),
            ds@.map_values(|d: QueryDifference| as_group(d)),
        ),
{
    let l = parse_query(left);
    let r = parse_query(right);
    let mut groups = compare_groups(&l, &r);
    let ghost gs = groups@;
    let mut ds: Vec<QueryDifference> = Vec::new();
    while groups.len() > 0
        invariant
            ds@.map_values(|d: QueryDifference| as_group(d)) + groups@ == gs,
        decreases groups@.len(),
    {
        let ghost before = ds@.map_values(|d: QueryDifference| as_group(d));
        let ghost rest = groups@;
        let g = groups.remove(0);
        let q = QueryDifference { name: g.name, kind: g.kind, baseline: g.baseline, candidate: g.candidate };
        assert(as_group(q) == rest[0]);
        ds.push(q);
        assert(ds@.map_values(|d: QueryDifference| as_group(d)) == before.push(rest[0]));
        assert(rest == seq![rest[0]] + groups@);
    }
    assert(ds@.map_values(|d: QueryDifference| as_group(d)) == gs);
    ds
}


// ---------------------------------------------------------------------------
// Bodies
// ---------------------------------------------------------------------------

/// `d` reports no shape drift exactly when the two shapes agree.
pub proof fn lemma_shape_difference_empty(left: Seq<ShapeRecord>, right: Seq<ShapeRecord>, d: JsonShapeDifference)
    requires
        is_shape_difference(left, right, d),
    ensures
        (d.added_paths@.len() == 0 && d.removed_paths@.len() == 0 && d.type_changes@.len() == 0)
            <==> shapes_agree(left, right),
{
    let added = crate::order::string_views(d.added_paths@);
    let removed = crate::order::string_views(d.removed_paths@);
    let changed = change_pointers(d.type_changes@);
    if shapes_agree(left, right) {
        if added.len() > 0 {
            assert(added.contains(added[0]));
            assert(shape_type(left, added[0]) == shape_type(right, added[0]));
        }
        if removed.len() > 0 {
            assert(removed.contains(removed[0]));
            assert(shape_type(left, removed[0]) == shape_type(right, removed[0]));
        }
        if changed.len() > 0 {
            assert(changed.contains(changed[0]));
            assert(shape_type(left, changed[0]) == shape_type(right, changed[0]));
        }
    } else {
        let p = choose|p: Seq<char>| shape_type(left, p) != shape_type(right, p);
        if shape_type(left, p) is None {
            assert(added.contains(p));
        } else if shape_type(right, p) is None {
            assert(removed.contains(p));
        } else {
            assert(changed.contains(p));
        }
    }
}

/// What a body preview shows: the text, cut after 4,000 characters with
/// an ellipsis.
pub open spec fn preview_of(text: Seq<char>) -> Seq<char> {
    if text.len() <= 4000 {
        text
    } else {
        text.take(4000) + seq!['\u{2026}']
    }
}

pub open spec fn body_json(body: Option<ComparableBody>) -> Option<JsonValue> {
    match body {
        Some(b) => match b.text {
            Some(t) => match crate::json::json_parse(t@) {
                Ok(v) => Some(v),
                Err(_) => None,
            },
            None => None,
        },
        None => None,
    }
}

/// Two bodies are equal when both are missing, or when their text,
/// content type and size agree.
pub open spec fn bodies_equal(left: Option<ComparableBody>, right: Option<ComparableBody>) -> bool {
    match (left, right) {
        (Some(a), Some(b)) => opt_view(a.text) == opt_view(b.text) && opt_view(a.content_type) == opt_view(
            b.content_type,
        ) && a.byte_size == b.byte_size,
        (None, None) => true,
        _ => false,
    }
}

pub open spec fn body_content_type(body: Option<ComparableBody>) -> Option<Seq<char>> {
    match body {
        Some(b) => opt_view(b.content_type),
        None => None,
    }
}

pub open spec fn body_preview_of(body: Option<ComparableBody>) -> Option<Seq<char>> {
    match body {
        Some(b) => match b.text {
            Some(t) => Some(preview_of(t@)),
            None => None,
        },
        None => None,
    }
}

pub open spec fn body_size(body: Option<ComparableBody>) -> Option<u64> {
    match body {
        Some(b) => Some(b.byte_size),
        None => None,
    }
}

/// `d` is the difference of two bodies: their kind of difference, content
/// types, sizes and previews, and the drift of their JSON shapes where
/// both parse and the shapes disagree.
pub open spec fn is_body_difference(left: Option<ComparableBody>, right: Option<ComparableBody>, d: BodyDifference) -> bool {
    &&& d.kind == diff_kind(left is Some, right is Some, bodies_equal(left, right))
    &&& opt_view(d.baseline_content_type) == body_content_type(left)
    &&& opt_view(d.candidate_content_type) == body_content_type(right)
    &&& d.baseline_byte_size == body_size(left)
    &&& d.candidate_byte_size == body_size(right)
    &&& opt_view(d.baseline_preview) == body_preview_of(left)
    &&& opt_view(d.candidate_preview) == body_preview_of(right)
    &&& match (body_json(left), body_json(right)) {
        (Some(a), Some(b)) => if shapes_agree(document_shape(a), document_shape(b)) {
            d.json_shape is None
        } else {
            d.json_shape matches Some(s) && is_shape_difference(document_shape(a), document_shape(b), s)
        },
        _ => d.json_shape is None,
    }
}

fn body_preview(body: &ComparableBody) -> (r: Option<String>)
    ensures
        opt_view(r) == body_preview_of(Some(*body)),
{
    match &body.text {
        Some(text) => {
            let chars = crate::text::chars_of(text.as_str());
            if chars.len() <= 4000 {
                Some(copy_string(text))
            } else {
                let mut cut = crate::text::slice_chars(&chars, 0, 4000);
                cut.push('\u{2026}');
                Some(crate::text::string_of(&cut))
            }
        },
        None => None,
    }
}

fn parsed_json(body: &Option<ComparableBody>) -> (r: Option<JsonValue>)
    ensures
        r == body_json(*body),
{
    match body {
        Some(b) => match &b.text {
            Some(t) => match parse_json(t.as_str()) {
                Ok(v) => Some(v),
                Err(_) => None,
            },
            None => None,
        },
        None => None,
    }
}

/// The difference of two optional bodies.
pub fn compare_body(left: &Option<ComparableBody>, right: &Option<ComparableBody>) -> (d: BodyDifference)
    ensures
        is_body_difference(*left, *right, d),
{
    let equal = match (left, right) {
        (Some(a), Some(b)) => opt_str_eq(&a.text, &b.text) && opt_str_eq(&a.content_type, &b.content_type)
            && a.byte_size == b.byte_size,
        (None, None) => true,
        _ => false,
    };
    let kind = difference_kind(left.is_some(), right.is_some(), equal);
    let json_shape = match (parsed_json(left), parsed_json(right)) {
        (Some(a), Some(b)) => {
            let drift = compare_json_shape(&a, &b);
            proof {
                lemma_shape_difference_empty(document_shape(a), document_shape(b), drift);
            }
            if drift.is_empty() {
                None
            } else {
                Some(drift)
            }
        },
        _ => None,
    };
    BodyDifference {
        kind,
        baseline_content_type: match left {
            Some(b) => copy_opt_string(&b.content_type),
            None => None,
        },
        candidate_content_type: match right {
            Some(b) => copy_opt_string(&b.content_type),
            None => None,
        },
        baseline_byte_size: match left {
            Some(b) => Some(b.byte_size),
            None => None,
        },
        candidate_byte_size: match right {
            Some(b) => Some(b.byte_size),
            None => None,
        },
        baseline_preview: match left {
            Some(b) => body_preview(b),
            None => None,
        },
        candidate_preview: match right {
            Some(b) => body_preview(b),
            None => None,
        },
        json_shape,
    }
}


// ---------------------------------------------------------------------------
// Matched calls
// ---------------------------------------------------------------------------

pub open spec fn request_method(f: ComparableFlow) -> Option<Seq<char>> {
    match f.detail.request {
        Some(r) => Some(r.method@),
        None => None,
    }
}

pub open spec fn request_query(f: ComparableFlow) -> Option<Seq<char>> {
    match f.detail.request {
        Some(r) => opt_view(r.query),
        None => None,
    }
}

pub open spec fn request_headers(f: ComparableFlow) -> Seq<HeaderValue> {
    match f.detail.request {
        Some(r) => r.headers@,
        None => seq![],
    }
}

pub open spec fn response_status(f: ComparableFlow) -> Option<Seq<char>> {
    match f.detail.response {
        Some(r) => Some(crate::text::decimal(r.status_code as nat)),
        None => None,
    }
}

pub open spec fn response_headers(f: ComparableFlow) -> Seq<HeaderValue> {
    match f.detail.response {
        Some(r) => r.headers@,
        None => seq![],
    }
}

/// `d` is the difference of two optional values.
pub open spec fn is_scalar_difference(left: Option<Seq<char>>, right: Option<Seq<char>>, d: ScalarDifference) -> bool {
    &&& d.kind == diff_kind(left is Some, right is Some, left == right)
    &&& opt_view(d.baseline) == left
    &&& opt_view(d.candidate) == right
}

pub open spec fn is_request_difference(left: ComparableFlow, right: ComparableFlow, d: RequestDifference) -> bool {
    &&& is_scalar_difference(request_method(left), request_method(right), d.method)
    &&& is_group_difference(
        query_entries(request_query(left)),
        query_entries(request_query(right)),
        d.query@.map_values(|q: QueryDifference| as_group(q)),
    )
    &&& is_group_difference(header_entries(request_headers(left)), header_entries(request_headers(right)), d.headers@)
    &&& is_body_difference(left.request_body, right.request_body, d.body)
}

pub open spec fn is_response_difference(left: ComparableFlow, right: ComparableFlow, d: ResponseDifference) -> bool {
    &&& is_scalar_difference(response_status(left), response_status(right), d.status)
    &&& is_group_difference(header_entries(response_headers(left)), header_entries(response_headers(right)), d.headers@)
    &&& is_body_difference(left.response_body, right.response_body, d.body)
}

fn method_of(f: &ComparableFlow) -> (r: Option<String>)
    ensures
        opt_view(r) == request_method(*f),
{
    match &f.detail.request {
        Some(r) => Some(copy_string(&r.method)),
        None => None,
    }
}

fn status_of(f: &ComparableFlow) -> (r: Option<String>)
    ensures
        opt_view(r) == response_status(*f),
{
    match &f.detail.response {
        Some(r) => Some(crate::text::decimal_string(r.status_code as u64)),
        None => None,
    }
}

fn query_of(f: &ComparableFlow) -> (r: Option<String>)
    ensures
        opt_view(r) == request_query(*f),
{
    match &f.detail.request {
        Some(r) => copy_opt_string(&r.query),
        None => None,
    }
}

fn scalar_of(left: Option<String>, right: Option<String>) -> (d: ScalarDifference)
    ensures
        is_scalar_difference(opt_view(left), opt_view(right), d),
{
    scalar_diff(left, right)
}

pub fn compare_requests(left: &ComparableFlow, right: &ComparableFlow) -> (d: RequestDifference)
    ensures
        is_request_difference(*left, *right, d),
{
    let empty: Vec<HeaderValue> = Vec::new();
    let lh: &Vec<HeaderValue> = match &left.detail.request {
        Some(r) => &r.headers,
        None => &empty,
    };
    let rh: &Vec<HeaderValue> = match &right.detail.request {
        Some(r) => &r.headers,
        None => &empty,
    };
    assert(lh@ == request_headers(*left));
    assert(rh@ == request_headers(*right));
    RequestDifference {
        method: scalar_of(method_of(left), method_of(right)),
        query: compare_query(&query_of(left), &query_of(right)),
        headers: compare_headers(lh, rh),
        body: compare_body(&left.request_body, &right.request_body),
    }
}

pub fn compare_responses(left: &ComparableFlow, right: &ComparableFlow) -> (d: ResponseDifference)
    ensures
        is_response_difference(*left, *right, d),
{
    let empty: Vec<HeaderValue> = Vec::new();
    let lh: &Vec<HeaderValue> = match &left.detail.response {
        Some(r) => &r.headers,
        None => &empty,
    };
    let rh: &Vec<HeaderValue> = match &right.detail.response {
        Some(r) => &r.headers,
        None => &empty,
    };
    assert(lh@ == response_headers(*left));
    assert(rh@ == response_headers(*right));
    ResponseDifference {
        status: scalar_of(status_of(left), status_of(right)),
        headers: compare_headers(lh, rh),
        body: compare_body(&left.response_body, &right.response_body),
    }
}

/// Whether the request of a matched call changed.
pub open spec fn request_changed_spec(d: RequestDifference) -> bool {
    d.method.kind != DifferenceKind::Same || d.query@.len() > 0 || d.headers@.len() > 0 || d.body.kind
        != DifferenceKind::Same || d.body.json_shape is Some
}

pub open spec fn response_changed_spec(d: ResponseDifference) -> bool {
    d.status.kind != DifferenceKind::Same || d.headers@.len() > 0 || d.body.kind != DifferenceKind::Same
        || d.body.json_shape is Some
}

pub open spec fn timing_changed_spec(t: TimingDifference) -> bool {
    (t.delta_ms matches Some(v) && v != 0) || (t.size_delta_bytes matches Some(v) && v != 0)
}

fn request_changed(d: &RequestDifference) -> (r: bool)
    ensures
        r == request_changed_spec(*d),
{
    d.method.kind != DifferenceKind::Same || d.query.len() > 0 || d.headers.len() > 0 || d.body.kind
        != DifferenceKind::Same || d.body.json_shape.is_some()
}

fn response_changed(d: &ResponseDifference) -> (r: bool)
    ensures
        r == response_changed_spec(*d),
{
    d.status.kind != DifferenceKind::Same || d.headers.len() > 0 || d.body.kind != DifferenceKind::Same
        || d.body.json_shape.is_some()
}

fn timing_changed(t: &TimingDifference) -> (r: bool)
    ensures
        r == timing_changed_spec(*t),
{
    (match t.delta_ms {
        Some(v) => v != 0,
        None => false,
    }) || (match t.size_delta_bytes {
        Some(v) => v != 0,
        None => false,
    })
}

pub fn copy_context(c: &Option<AppContextEvidence>) -> (r: Option<AppContextEvidence>)
    ensures
        r == *c,
{
    match c {
        Some(e) => Some(
            AppContextEvidence {
                app_id: copy_opt_string(&e.app_id),
                app_name: copy_opt_string(&e.app_name),
                platform: copy_opt_string(&e.platform),
                screen: copy_opt_string(&e.screen),
                feature: copy_opt_string(&e.feature),
                source_file: copy_opt_string(&e.source_file),
                source_function: copy_opt_string(&e.source_function),
                source_line: e.source_line,
            },
        ),
        None => None,
    }
}

/// `c` compares occurrence `occurrence` of an endpoint: a call both
/// sessions made, or one only one of them made.
pub open spec fn is_call_comparison(
    key: Seq<char>,
    occurrence: usize,
    baseline: Option<ComparableFlow>,
    candidate: Option<ComparableFlow>,
    c: CallComparison,
) -> bool {
    &&& c.endpoint_key@ == key
    &&& c.occurrence == occurrence
    &&& c.baseline_flow_id == (match baseline { Some(f) => Some(f.detail.summary.id), None => None })
    &&& c.candidate_flow_id == (match candidate { Some(f) => Some(f.detail.summary.id), None => None })
    &&& c.baseline_started_at == (match baseline { Some(f) => Some(f.detail.summary.started_at), None => None })
    &&& c.candidate_started_at == (match candidate { Some(f) => Some(f.detail.summary.started_at), None => None })
    &&& c.baseline_context == (match baseline { Some(f) => f.app_context, None => None })
    &&& c.candidate_context == (match candidate { Some(f) => f.app_context, None => None })
    &&& match (baseline, candidate) {
        (Some(l), Some(r)) => {
            &&& c.presence == Presence::Both
            &&& c.request matches Some(rq) && is_request_difference(l, r, rq)
            &&& c.response matches Some(rs) && is_response_difference(l, r, rs)
            &&& c.timing == timing_of(l, r)
            &&& c.changed == (request_changed_spec(c.request->0) || response_changed_spec(c.response->0)
                || timing_changed_spec(c.timing))
        },
        (Some(l), None) => {
            &&& c.presence == Presence::BaselineOnly
            &&& c.request is None && c.response is None
            &&& c.timing == one_sided_timing(total_ms_of(l), l.detail.summary.response_size_bytes, true)
            &&& c.changed
        },
        (None, Some(r)) => {
            &&& c.presence == Presence::CandidateOnly
            &&& c.request is None && c.response is None
            &&& c.timing == one_sided_timing(total_ms_of(r), r.detail.summary.response_size_bytes, false)
            &&& c.changed
        },
        (None, None) => false,
    }
}

/// Compares one occurrence of an endpoint; at least one side has a call.
pub fn compare_call(
    endpoint_key: &str,
    occurrence: usize,
    baseline: Option<&ComparableFlow>,
    candidate: Option<&ComparableFlow>,
) -> (c: CallComparison)
    requires
        baseline is Some || candidate is Some,
    ensures
        is_call_comparison(
            endpoint_key@,
            occurrence,
            match baseline { Some(f) => Some(*f), None => None },
            match candidate { Some(f) => Some(*f), None => None },
            c,
        ),
{
    match (baseline, candidate) {
        (Some(left), Some(right)) => {
            let request = compare_requests(left, right);
            let response = compare_responses(left, right);
            let timing = compare_timing(left, right);
            let changed = request_changed(&request) || response_changed(&response) || timing_changed(&timing);
            CallComparison {
                endpoint_key: crate::text::owned(endpoint_key),
                occurrence,
                presence: Presence::Both,
                baseline_flow_id: Some(copy_string(&left.detail.summary.id)),
                candidate_flow_id: Some(copy_string(&right.detail.summary.id)),
                baseline_started_at: Some(copy_string(&left.detail.summary.started_at)),
                candidate_started_at: Some(copy_string(&right.detail.summary.started_at)),
                request: Some(request),
                response: Some(response),
                timing,
                baseline_context: copy_context(&left.app_context),
                candidate_context: copy_context(&right.app_context),
                changed,
            }
        },
        (Some(left), None) => CallComparison {
            endpoint_key: crate::text::owned(endpoint_key),
            occurrence,
            presence: Presence::BaselineOnly,
            baseline_flow_id: Some(copy_string(&left.detail.summary.id)),
            candidate_flow_id: None,
            baseline_started_at: Some(copy_string(&left.detail.summary.started_at)),
            candidate_started_at: None,
            request: None,
            response: None,
            timing: TimingDifference {
                baseline_total_ms: flow_total_ms(left),
                candidate_total_ms: None,
                delta_ms: None,
                delta_percent: None,
                baseline_size_bytes: left.detail.summary.response_size_bytes,
                candidate_size_bytes: None,
                size_delta_bytes: None,
            },
            baseline_context: copy_context(&left.app_context),
            candidate_context: None,
            changed: true,
        },
        (None, _) => {
            let right = candidate.unwrap();
            CallComparison {
            endpoint_key: crate::text::owned(endpoint_key),
            occurrence,
            presence: Presence::CandidateOnly,
            baseline_flow_id: None,
            candidate_flow_id: Some(copy_string(&right.detail.summary.id)),
            baseline_started_at: None,
            candidate_started_at: Some(copy_string(&right.detail.summary.started_at)),
            request: None,
            response: None,
            timing: TimingDifference {
                baseline_total_ms: None,
                candidate_total_ms: flow_total_ms(right),
                delta_ms: None,
                delta_percent: None,
                baseline_size_bytes: None,
                candidate_size_bytes: right.detail.summary.response_size_bytes,
                size_delta_bytes: None,
            },
            baseline_context: None,
            candidate_context: copy_context(&right.app_context),
            changed: true,
            }
        },
    }
}


// ---------------------------------------------------------------------------
// Calls grouped by endpoint
// ---------------------------------------------------------------------------

/// The endpoint a flow belongs to.
pub open spec fn flow_key(f: ComparableFlow) -> Seq<char> {
    crate::endpoint::endpoint_key(f.detail.summary.method@, f.detail.summary.host@, f.detail.summary.path@)
}

pub open spec fn flow_stamp(f: ComparableFlow) -> u128 {
    timestamp_of(f.detail.summary.started_at@)
}

/// Flow `i` starts before flow `j`; flows that start together keep their
/// order in the session.
pub open spec fn starts_before(fs: Seq<ComparableFlow>, i: int, j: int) -> bool {
    flow_stamp(fs[i]) < flow_stamp(fs[j]) || (flow_stamp(fs[i]) == flow_stamp(fs[j]) && i < j)
}

/// `g` lists the flows of endpoint `key`, in the order they started.
pub open spec fn is_group(fs: Seq<ComparableFlow>, key: Seq<char>, g: Seq<usize>) -> bool {
    &&& forall|a: int, b: int| 0 <= a < b < g.len() ==> starts_before(fs, #[trigger] g[a] as int, #[trigger] g[b] as int)
    &&& forall|i: usize| #[trigger] g.contains(i) <==> (i < fs.len() && flow_key(fs[i as int]) == key)
}

/// The endpoint key of each flow.
fn flow_keys(flows: &Vec<ComparableFlow>) -> (r: Vec<String>)
    ensures
        r@.len() == flows@.len(),
        forall|i: int| 0 <= i < flows@.len() ==> (#[trigger] r@[i])@ == flow_key(flows@[i]),
{
    let mut r: Vec<String> = Vec::new();
    for i in 0..flows.len()
        invariant
            r@.len() == i,
            forall|k: int| 0 <= k < i ==> (#[trigger] r@[k])@ == flow_key(flows@[k]),
    {
        let s = &flows[i].detail.summary;
        let e = crate::endpoint::normalize_endpoint(s.method.as_str(), s.host.as_str(), s.path.as_str());
        r.push(e.key);
    }
    r
}

/// The start of each flow.
fn flow_stamps(flows: &Vec<ComparableFlow>) -> (r: Vec<u128>)
    ensures
        r@.len() == flows@.len(),
        forall|i: int| 0 <= i < flows@.len() ==> #[trigger] r@[i] == flow_stamp(flows@[i]),
{
    let mut r: Vec<u128> = Vec::new();
    for i in 0..flows.len()
        invariant
            r@.len() == i,
            forall|k: int| 0 <= k < i ==> #[trigger] r@[k] == flow_stamp(flows@[k]),
    {
        r.push(timestamp_ms(flows[i].detail.summary.started_at.as_str()));
    }
    r
}

/// The flows marked in `mask`, in the order they started.
fn select_by_start(flows: &Vec<ComparableFlow>, stamps: &Vec<u128>, mask: &Vec<bool>) -> (g: Vec<usize>)
    requires
        stamps@.len() == flows@.len(),
        mask@.len() == flows@.len(),
        forall|i: int| 0 <= i < flows@.len() ==> #[trigger] stamps@[i] == flow_stamp(flows@[i]),
    ensures
        forall|a: int, b: int| 0 <= a < b < g@.len() ==> starts_before(flows@, #[trigger] g@[a] as int, #[trigger] g@[b] as int),
        forall|i: usize| #[trigger] g@.contains(i) <==> (i < flows@.len() && mask@[i as int]),
{
    let ghost fs = flows@;
    let mut g: Vec<usize> = Vec::new();
    for i in 0..flows.len()
        invariant
            fs == flows@,
            stamps@.len() == fs.len(),
            mask@.len() == fs.len(),
            forall|k: int| 0 <= k < fs.len() ==> #[trigger] stamps@[k] == flow_stamp(fs[k]),
            forall|a: int, b: int| 0 <= a < b < g@.len() ==> starts_before(fs, #[trigger] g@[a] as int, #[trigger] g@[b] as int),
            forall|k: usize| #[trigger] g@.contains(k) <==> (k < i && mask@[k as int]),
            forall|a: int| 0 <= a < g@.len() ==> #[trigger] g@[a] < i,
    {
        if mask[i] {
            let t = stamps[i];
            let mut j: usize = 0;
            while j < g.len()
                invariant
                    j <= g@.len(),
                    i < fs.len(),
                    forall|a: int| 0 <= a < g@.len() ==> #[trigger] g@[a] < i,
                    stamps@.len() == fs.len(),
                    t == flow_stamp(fs[i as int]),
                    forall|k: int| 0 <= k < fs.len() ==> #[trigger] stamps@[k] == flow_stamp(fs[k]),
                    forall|a: int| 0 <= a < j ==> flow_stamp(fs[#[trigger] g@[a] as int]) <= t,
                ensures
                    j <= g@.len(),
                    forall|a: int| 0 <= a < j ==> flow_stamp(fs[#[trigger] g@[a] as int]) <= t,
                    j < g@.len() ==> flow_stamp(fs[g@[j as int] as int]) > t,
                decreases g@.len() - j,
            {
                if stamps[g[j]] > t {
                    break;
                }
                j = j + 1;
            }
            let ghost old_g = g@;
            g.insert(j, i);
            proof {
                assert(g@ == old_g.insert(j as int, i));
                assert forall|a: int, b: int| 0 <= a < b < g@.len() implies starts_before(
                    fs,
                    #[trigger] g@[a] as int,
                    #[trigger] g@[b] as int,
                ) by {
                    if b < j {
                    } else if a < j && b == j {
                    } else if a < j {
                        assert(g@[b] == old_g[b - 1]);
                        if b - 1 > j {
                            assert(starts_before(fs, old_g[j as int] as int, old_g[b - 1] as int));
                        }
                    } else if a == j {
                        assert(g@[b] == old_g[b - 1]);
                        if b - 1 > j {
                            assert(starts_before(fs, old_g[j as int] as int, old_g[b - 1] as int));
                        }
                    } else {
                        assert(g@[a] == old_g[a - 1]);
                        assert(g@[b] == old_g[b - 1]);
                    }
                }
                assert forall|k: usize| #[trigger] g@.contains(k) <==> (k < i + 1 && mask@[k as int]) by {
                    if g@.contains(k) {
                        let a = choose|a: int| 0 <= a < g@.len() && g@[a] == k;
                        if a < j {
                            assert(old_g[a] == k);
                            assert(old_g.contains(k));
                        } else if a > j {
                            assert(old_g[a - 1] == k);
                            assert(old_g.contains(k));
                        }
                    }
                    if k < i + 1 && mask@[k as int] {
                        if k == i {
                            assert(g@[j as int] == i);
                        } else {
                            assert(old_g.contains(k));
                            let a = choose|a: int| 0 <= a < old_g.len() && old_g[a] == k;
                            if a < j {
                                assert(g@[a] == k);
                            } else {
                                assert(g@[a + 1] == k);
                            }
                        }
                    }
                }
                assert forall|a: int| 0 <= a < g@.len() implies #[trigger] g@[a] < i + 1 by {
                    if a < j {
                        assert(g@[a] == old_g[a]);
                    } else if a > j {
                        assert(g@[a] == old_g[a - 1]);
                    }
                }
            }
        } else {
            proof {
                assert forall|k: usize| #[trigger] g@.contains(k) <==> (k < i + 1 && mask@[k as int]) by {
                    if g@.contains(k) {
                        let a = choose|a: int| 0 <= a < g@.len() && g@[a] == k;
                    }
                }
            }
        }
    }
    g
}

/// The flows of endpoint `key`, in the order they started.
fn group_indices(flows: &Vec<ComparableFlow>, keys: &Vec<String>, stamps: &Vec<u128>, key: &String) -> (g: Vec<usize>)
    requires
        keys@.len() == flows@.len(),
        stamps@.len() == flows@.len(),
        forall|i: int| 0 <= i < flows@.len() ==> (#[trigger] keys@[i])@ == flow_key(flows@[i]),
        forall|i: int| 0 <= i < flows@.len() ==> #[trigger] stamps@[i] == flow_stamp(flows@[i]),
    ensures
        is_group(flows@, key@, g@),
{
    let mut mask: Vec<bool> = Vec::new();
    for i in 0..keys.len()
        invariant
            mask@.len() == i,
            forall|k: int| 0 <= k < i ==> #[trigger] mask@[k] == (keys@[k]@ == key@),
    {
        mask.push(crate::text::str_eq(keys[i].as_str(), key.as_str()));
    }
    select_by_start(flows, stamps, &mask)
}

// ---------------------------------------------------------------------------
// The summary of a comparison
// ---------------------------------------------------------------------------

/// Every call of the endpoints, endpoint by endpoint.
pub open spec fn all_calls(endpoints: Seq<EndpointComparison>) -> Seq<CallComparison>
    decreases endpoints.len(),
{
    if endpoints.len() == 0 {
        seq![]
    } else {
        all_calls(endpoints.drop_last()) + endpoints.last().calls@
    }
}

/// How many of the calls satisfy `pred`.
pub open spec fn count_where(calls: Seq<CallComparison>, pred: spec_fn(CallComparison) -> bool) -> nat
    decreases calls.len(),
{
    if calls.len() == 0 {
        0
    } else {
        count_where(calls.drop_last(), pred) + if pred(calls.last()) {
            1nat
        } else {
            0nat
        }
    }
}

pub proof fn lemma_count_where_bound(calls: Seq<CallComparison>, pred: spec_fn(CallComparison) -> bool)
    ensures
        count_where(calls, pred) <= calls.len(),
    decreases calls.len(),
{
    if calls.len() > 0 {
        lemma_count_where_bound(calls.drop_last(), pred);
    }
}

pub open spec fn status_changed(c: CallComparison) -> bool {
    c.response matches Some(r) && r.status.kind != DifferenceKind::Same
}

pub open spec fn response_body_changed(c: CallComparison) -> bool {
    c.response matches Some(r) && r.body.kind != DifferenceKind::Same
}

pub open spec fn shape_drifted(c: CallComparison) -> bool {
    c.response matches Some(r) && r.body.json_shape is Some
}

/// A timing regression: at least 25% and at least 100 ms slower.
pub open spec fn timing_regressed(c: CallComparison) -> bool {
    (c.timing.delta_percent matches Some(p) && p >= 25) && (c.timing.delta_ms matches Some(d) && d >= 100)
}

/// The tallies of the calls of a comparison.
pub open spec fn is_summary_of(endpoints: Seq<EndpointComparison>, s: ComparisonSummary) -> bool {
    let calls = all_calls(endpoints);
    &&& s.endpoint_count == endpoints.len()
    &&& s.matched_calls == count_where(calls, |c: CallComparison| c.presence == Presence::Both)
    &&& s.baseline_only_calls == count_where(calls, |c: CallComparison| c.presence == Presence::BaselineOnly)
    &&& s.candidate_only_calls == count_where(calls, |c: CallComparison| c.presence == Presence::CandidateOnly)
    &&& s.changed_calls == count_where(calls, |c: CallComparison| c.changed)
    &&& s.status_changes == count_where(calls, |c: CallComparison| status_changed(c))
    &&& s.body_changes == count_where(calls, |c: CallComparison| response_body_changed(c))
    &&& s.json_shape_drifts == count_where(calls, |c: CallComparison| shape_drifted(c))
    &&& s.timing_regressions == count_where(calls, |c: CallComparison| timing_regressed(c))
}

/// Counts the calls of a comparison by presence and by what changed.
pub fn summarize(endpoints: &Vec<EndpointComparison>) -> (s: ComparisonSummary)
    requires
        all_calls(endpoints@).len() <= usize::MAX,
    ensures
        is_summary_of(endpoints@, s),
{
    let ghost p_both = |c: CallComparison| c.presence == Presence::Both;
    let ghost p_base = |c: CallComparison| c.presence == Presence::BaselineOnly;
    let ghost p_cand = |c: CallComparison| c.presence == Presence::CandidateOnly;
    let ghost p_changed = |c: CallComparison| c.changed;
    let ghost p_status = |c: CallComparison| status_changed(c);
    let ghost p_body = |c: CallComparison| response_body_changed(c);
    let ghost p_drift = |c: CallComparison| shape_drifted(c);
    let ghost p_slow = |c: CallComparison| timing_regressed(c);
    let ghost es = endpoints@;
    let mut s = ComparisonSummary {
        endpoint_count: endpoints.len(),
        matched_calls: 0,
        baseline_only_calls: 0,
        candidate_only_calls: 0,
        changed_calls: 0,
        status_changes: 0,
        body_changes: 0,
        json_shape_drifts: 0,
        timing_regressions: 0,
    };
    proof {
        assert forall|k: int| 0 <= k <= es.len() implies #[trigger] all_calls(es.take(k)).len() <= all_calls(es).len() by {
            lemma_all_calls_prefix(es, k);
        }
    }
    for i in 0..endpoints.len()
        invariant
            es == endpoints@,
            s.endpoint_count == es.len(),
            all_calls(es).len() <= usize::MAX,
            forall|k: int| 0 <= k <= es.len() ==> #[trigger] all_calls(es.take(k)).len() <= all_calls(es).len(),
            s.matched_calls == count_where(all_calls(es.take(i as int)), p_both),
            s.baseline_only_calls == count_where(all_calls(es.take(i as int)), p_base),
            s.candidate_only_calls == count_where(all_calls(es.take(i as int)), p_cand),
            s.changed_calls == count_where(all_calls(es.take(i as int)), p_changed),
            s.status_changes == count_where(all_calls(es.take(i as int)), p_status),
            s.body_changes == count_where(all_calls(es.take(i as int)), p_body),
            s.json_shape_drifts == count_where(all_calls(es.take(i as int)), p_drift),
            s.timing_regressions == count_where(all_calls(es.take(i as int)), p_slow),
            forall|c: CallComparison| #[trigger] p_both(c) == (c.presence == Presence::Both),
            forall|c: CallComparison| #[trigger] p_base(c) == (c.presence == Presence::BaselineOnly),
            forall|c: CallComparison| #[trigger] p_cand(c) == (c.presence == Presence::CandidateOnly),
            forall|c: CallComparison| #[trigger] p_changed(c) == c.changed,
            forall|c: CallComparison| #[trigger] p_status(c) == status_changed(c),
            forall|c: CallComparison| #[trigger] p_body(c) == response_body_changed(c),
            forall|c: CallComparison| #[trigger] p_drift(c) == shape_drifted(c),
            forall|c: CallComparison| #[trigger] p_slow(c) == timing_regressed(c),
    {
        let calls = &endpoints[i].calls;
        let ghost before = all_calls(es.take(i as int));
        assert(es.take(i + 1).drop_last() == es.take(i as int));
        assert(all_calls(es.take(i + 1)) == before + calls@);
        for j in 0..calls.len()
            invariant
                es == endpoints@,
                calls@ == es[i as int].calls@,
                before == all_calls(es.take(i as int)),
                before.len() + calls@.len() <= usize::MAX,
                s.endpoint_count == es.len(),
                s.matched_calls == count_where(before + calls@.take(j as int), p_both),
                s.baseline_only_calls == count_where(before + calls@.take(j as int), p_base),
                s.candidate_only_calls == count_where(before + calls@.take(j as int), p_cand),
                s.changed_calls == count_where(before + calls@.take(j as int), p_changed),
                s.status_changes == count_where(before + calls@.take(j as int), p_status),
                s.body_changes == count_where(before + calls@.take(j as int), p_body),
                s.json_shape_drifts == count_where(before + calls@.take(j as int), p_drift),
                s.timing_regressions == count_where(before + calls@.take(j as int), p_slow),
                forall|c: CallComparison| #[trigger] p_both(c) == (c.presence == Presence::Both),
                forall|c: CallComparison| #[trigger] p_base(c) == (c.presence == Presence::BaselineOnly),
                forall|c: CallComparison| #[trigger] p_cand(c) == (c.presence == Presence::CandidateOnly),
                forall|c: CallComparison| #[trigger] p_changed(c) == c.changed,
                forall|c: CallComparison| #[trigger] p_status(c) == status_changed(c),
                forall|c: CallComparison| #[trigger] p_body(c) == response_body_changed(c),
                forall|c: CallComparison| #[trigger] p_drift(c) == shape_drifted(c),
                forall|c: CallComparison| #[trigger] p_slow(c) == timing_regressed(c),
        {
            let call = &calls[j];
            let ghost seen = before + calls@.take(j as int);
            assert(before + calls@.take(j + 1) == seen.push(*call));
            proof {
                lemma_count_where_bound(seen, p_both);
                lemma_count_where_bound(seen, p_base);
                lemma_count_where_bound(seen, p_cand);
                lemma_count_where_bound(seen, p_changed);
                lemma_count_where_bound(seen, p_status);
                lemma_count_where_bound(seen, p_body);
                lemma_count_where_bound(seen, p_drift);
                lemma_count_where_bound(seen, p_slow);
                assert(seen.push(*call).drop_last() == seen);
            }
            match call.presence {
                Presence::Both => s.matched_calls = s.matched_calls + 1,
                Presence::BaselineOnly => s.baseline_only_calls = s.baseline_only_calls + 1,
                Presence::CandidateOnly => s.candidate_only_calls = s.candidate_only_calls + 1,
            }
            if call.changed {
                s.changed_calls = s.changed_calls + 1;
            }
            match &call.response {
                Some(response) => {
                    if response.status.kind != DifferenceKind::Same {
                        s.status_changes = s.status_changes + 1;
                    }
                    if response.body.kind != DifferenceKind::Same {
                        s.body_changes = s.body_changes + 1;
                    }
                    if response.body.json_shape.is_some() {
                        s.json_shape_drifts = s.json_shape_drifts + 1;
                    }
                },
                None => {},
            }
            let slow_enough = match call.timing.delta_percent {
                Some(p) => p >= 25,
                None => false,
            };
            let long_enough = match call.timing.delta_ms {
                Some(d) => d >= 100,
                None => false,
            };
            if slow_enough && long_enough {
                s.timing_regressions = s.timing_regressions + 1;
            }
        }
        assert(calls@.take(calls@.len() as int) == calls@);
    }
    assert(es.take(es.len() as int) == es);
    s
}

/// The calls of a prefix of the endpoints are no more than all of them.
pub proof fn lemma_all_calls_prefix(es: Seq<EndpointComparison>, k: int)
    requires
        0 <= k <= es.len(),
    ensures
        all_calls(es.take(k)).len() <= all_calls(es).len(),
    decreases es.len() - k,
{
    if k < es.len() {
        lemma_all_calls_prefix(es, k + 1);
        assert(es.take(k + 1).drop_last() == es.take(k));
    } else {
        assert(es.take(k) == es);
    }
}


// ---------------------------------------------------------------------------
// Comparing sessions
// ---------------------------------------------------------------------------

/// The flow of occurrence `o` of a group, if the group has one.
pub open spec fn call_at(fs: Seq<ComparableFlow>, g: Seq<usize>, o: int) -> Option<ComparableFlow> {
    if 0 <= o < g.len() {
        Some(fs[g[o] as int])
    } else {
        None
    }
}

pub open spec fn larger(a: nat, b: nat) -> nat {
    if a >= b {
        a
    } else {
        b
    }
}

/// `e` compares endpoint `key` whose flows are `bg` in the baseline and
/// `cg` in the candidate: occurrence by occurrence, as many calls as the
/// busier side made, described by its first baseline call (else its first
/// candidate call).
pub open spec fn endpoint_from_groups(
    bf: Seq<ComparableFlow>,
    cf: Seq<ComparableFlow>,
    key: Seq<char>,
    bg: Seq<usize>,
    cg: Seq<usize>,
    e: EndpointComparison,
) -> bool {
    let exemplar = if bg.len() > 0 {
        bf[bg[0] as int]
    } else {
        cf[cg[0] as int]
    };
    &&& is_group(bf, key, bg)
    &&& is_group(cf, key, cg)
    &&& e.endpoint_key@ == key
    &&& e.baseline_count == bg.len()
    &&& e.candidate_count == cg.len()
    &&& e.calls@.len() == larger(bg.len(), cg.len())
    &&& forall|o: int| 0 <= o < e.calls@.len() ==> is_call_comparison(key, o as usize, call_at(bf, bg, o), call_at(cf, cg, o), #[trigger] e.calls@[o])
    &&& e.method@ == exemplar.detail.summary.method@
    &&& e.host@ == exemplar.detail.summary.host@
    &&& e.path_template@ == crate::endpoint::path_template(exemplar.detail.summary.path@)
}

pub open spec fn endpoint_keys(es: Seq<EndpointComparison>) -> Seq<Seq<char>> {
    es.map_values(|e: EndpointComparison| e.endpoint_key@)
}

pub open spec fn keys_of_flows(fs: Seq<ComparableFlow>) -> Seq<Seq<char>> {
    fs.map_values(|f: ComparableFlow| flow_key(f))
}

/// The endpoints of a comparison: one per endpoint that either session
/// called, in ascending order of key.
pub open spec fn is_endpoint_list(bf: Seq<ComparableFlow>, cf: Seq<ComparableFlow>, es: Seq<EndpointComparison>) -> bool {
    &&& crate::order::strictly_sorted(endpoint_keys(es))
    &&& forall|k: Seq<char>| #[trigger] endpoint_keys(es).contains(k) <==> (keys_of_flows(bf).contains(k)
        || keys_of_flows(cf).contains(k))
    &&& forall|i: int| 0 <= i < es.len() ==> #[trigger] endpoint_of_groups(bf, cf, es[i])
}

/// `e` compares its endpoint's groups of flows.
pub open spec fn endpoint_of_groups(bf: Seq<ComparableFlow>, cf: Seq<ComparableFlow>, e: EndpointComparison) -> bool {
    exists|bg: Seq<usize>, cg: Seq<usize>| #[trigger] endpoint_from_groups(bf, cf, e.endpoint_key@, bg, cg, e)
}

/// The comparison of one endpoint, given its groups of flows.
fn compare_endpoint(
    key: &String,
    baseline: &Vec<ComparableFlow>,
    candidate: &Vec<ComparableFlow>,
    bg: &Vec<usize>,
    cg: &Vec<usize>,
) -> (e: EndpointComparison)
    requires
        is_group(baseline@, key@, bg@),
        is_group(candidate@, key@, cg@),
        bg@.len() > 0 || cg@.len() > 0,
    ensures
        endpoint_from_groups(baseline@, candidate@, key@, bg@, cg@, e),
{
    proof {
        if bg@.len() > 0 {
            assert(bg@.contains(bg@[0]));
        } else {
            assert(cg@.contains(cg@[0]));
        }
    }
    let exemplar = if bg.len() > 0 {
        &baseline[bg[0]]
    } else {
        &candidate[cg[0]]
    };
    let normalized = crate::endpoint::normalize_endpoint(
        exemplar.detail.summary.method.as_str(),
        exemplar.detail.summary.host.as_str(),
        exemplar.detail.summary.path.as_str(),
    );
    let max_calls = if bg.len() >= cg.len() {
        bg.len()
    } else {
        cg.len()
    };
    let mut calls: Vec<CallComparison> = Vec::new();
    for occurrence in 0..max_calls
        invariant
            is_group(baseline@, key@, bg@),
            is_group(candidate@, key@, cg@),
            calls@.len() == occurrence,
            forall|o: int| 0 <= o < occurrence ==> is_call_comparison(
                key@,
                o as usize,
                call_at(baseline@, bg@, o),
                call_at(candidate@, cg@, o),
                #[trigger] calls@[o],
            ),
            max_calls == larger(bg@.len(), cg@.len()),
    {
        let left: Option<&ComparableFlow> = if occurrence < bg.len() {
            proof {
                assert(bg@.contains(bg@[occurrence as int]));
            }
            Some(&baseline[bg[occurrence]])
        } else {
            None
        };
        let right: Option<&ComparableFlow> = if occurrence < cg.len() {
            proof {
                assert(cg@.contains(cg@[occurrence as int]));
            }
            Some(&candidate[cg[occurrence]])
        } else {
            None
        };
        let call = compare_call(key.as_str(), occurrence, left, right);
        calls.push(call);
    }
    EndpointComparison {
        endpoint_key: copy_string(key),
        method: normalized.method,
        host: normalized.host,
        path_template: normalized.path_template,
        baseline_count: bg.len(),
        candidate_count: cg.len(),
        calls,
    }
}

/// A group lists each of its flows once.
proof fn lemma_group_no_duplicates(fs: Seq<ComparableFlow>, key: Seq<char>, g: Seq<usize>)
    requires
        is_group(fs, key, g),
    ensures
        g.no_duplicates(),
{
    assert forall|a: int, b: int| 0 <= a < g.len() && 0 <= b < g.len() && a != b implies g[a] != g[b] by {
        if a < b {
            assert(starts_before(fs, g[a] as int, g[b] as int));
        } else {
            assert(starts_before(fs, g[b] as int, g[a] as int));
        }
    }
}

/// Indices below `n`, each listed once, are at most `n` many.
proof fn lemma_distinct_indices_bound(s: Seq<int>, n: int)
    requires
        s.no_duplicates(),
        0 <= n,
        forall|k: int| 0 <= k < s.len() ==> 0 <= #[trigger] s[k] < n,
    ensures
        s.len() <= n,
{
    s.unique_seq_to_set();
    vstd::set_lib::lemma_int_range(0, n);
    assert(s.to_set().subset_of(vstd::set_lib::set_int_range(0, n)));
    vstd::set_lib::lemma_len_subset(s.to_set(), vstd::set_lib::set_int_range(0, n));
}

pub open spec fn as_ints(g: Seq<usize>) -> Seq<int> {
    g.map_values(|x: usize| x as int)
}

/// Compares two sessions endpoint by endpoint and call by call.
pub fn compare_sessions(baseline: SessionSnapshot, candidate: SessionSnapshot) -> (r: SessionComparison)
    requires
        baseline.flows@.len() + candidate.flows@.len() <= usize::MAX,
    ensures
        r.schema_version == COMPARE_SCHEMA_VERSION,
        r.baseline_session == baseline.session,
        r.candidate_session == candidate.session,
        is_endpoint_list(baseline.flows@, candidate.flows@, r.endpoints@),
        is_summary_of(r.endpoints@, r.summary),
        is_diagnosis(baseline.flows@, r.baseline_diagnostics),
        is_diagnosis(candidate.flows@, r.candidate_diagnostics),
{
    let baseline_diagnostics = diagnose_session(&baseline);
    let candidate_diagnostics = diagnose_session(&candidate);
    let ghost bf = baseline.flows@;
    let ghost cf = candidate.flows@;
    let bkeys = flow_keys(&baseline.flows);
    let ckeys = flow_keys(&candidate.flows);
    let bstamps = flow_stamps(&baseline.flows);
    let cstamps = flow_stamps(&candidate.flows);
    let keys = crate::order::sorted_union(&bkeys, &ckeys);
    let ghost ks = crate::order::string_views(keys@);
    proof {
        assert forall|k: Seq<char>| #[trigger] ks.contains(k) <==> (keys_of_flows(bf).contains(k) || keys_of_flows(cf).contains(k)) by {
            let bv = crate::order::string_views(bkeys@);
            let cv = crate::order::string_views(ckeys@);
            assert(bv == keys_of_flows(bf));
            assert(cv == keys_of_flows(cf));
        }
    }
    let mut endpoints: Vec<EndpointComparison> = Vec::new();
    let ghost mut seen_b: Seq<int> = seq![];
    let ghost mut bgs: Seq<Seq<usize>> = seq![];
    let ghost mut cgs: Seq<Seq<usize>> = seq![];
    let ghost mut seen_c: Seq<int> = seq![];
    for i in 0..keys.len()
        invariant
            bf == baseline.flows@,
            cf == candidate.flows@,
            bf.len() + cf.len() <= usize::MAX,
            ks == crate::order::string_views(keys@),
            crate::order::strictly_sorted(ks),
            forall|k: Seq<char>| #[trigger] ks.contains(k) <==> (keys_of_flows(bf).contains(k) || keys_of_flows(cf).contains(k)),
            bkeys@.len() == bf.len(),
            ckeys@.len() == cf.len(),
            bstamps@.len() == bf.len(),
            cstamps@.len() == cf.len(),
            forall|k: int| 0 <= k < bf.len() ==> (#[trigger] bkeys@[k])@ == flow_key(bf[k]),
            forall|k: int| 0 <= k < cf.len() ==> (#[trigger] ckeys@[k])@ == flow_key(cf[k]),
            forall|k: int| 0 <= k < bf.len() ==> #[trigger] bstamps@[k] == flow_stamp(bf[k]),
            forall|k: int| 0 <= k < cf.len() ==> #[trigger] cstamps@[k] == flow_stamp(cf[k]),
            endpoint_keys(endpoints@) == ks.take(i as int),
            bgs.len() == endpoints@.len(),
            cgs.len() == endpoints@.len(),
            forall|j: int| 0 <= j < endpoints@.len() ==> #[trigger] endpoint_from_groups(
                bf,
                cf,
                endpoints@[j].endpoint_key@,
                bgs[j],
                cgs[j],
                endpoints@[j],
            ),
            seen_b.no_duplicates(),
            seen_c.no_duplicates(),
            forall|k: int| 0 <= k < seen_b.len() ==> 0 <= #[trigger] seen_b[k] < bf.len() && ks.take(i as int).contains(
                flow_key(bf[seen_b[k]]),
            ),
            forall|k: int| 0 <= k < seen_c.len() ==> 0 <= #[trigger] seen_c[k] < cf.len() && ks.take(i as int).contains(
                flow_key(cf[seen_c[k]]),
            ),
            all_calls(endpoints@).len() <= seen_b.len() + seen_c.len(),
    {
        let key = &keys[i];
        let bg = group_indices(&baseline.flows, &bkeys, &bstamps, key);
        let cg = group_indices(&candidate.flows, &ckeys, &cstamps, key);
        let ghost k = key@;
        proof {
            assert(ks[i as int] == k);
            assert(ks.contains(k));
            if keys_of_flows(bf).contains(k) {
                let x = choose|x: int| 0 <= x < bf.len() && keys_of_flows(bf)[x] == k;
                assert(bg@.contains(x as usize));
            } else {
                let x = choose|x: int| 0 <= x < cf.len() && keys_of_flows(cf)[x] == k;
                assert(cg@.contains(x as usize));
            }
            assert(bg@.len() > 0 || cg@.len() > 0);
            lemma_group_no_duplicates(bf, k, bg@);
            lemma_group_no_duplicates(cf, k, cg@);
            // The new groups are disjoint from what was seen.
            assert(!ks.take(i as int).contains(k)) by {
                if ks.take(i as int).contains(k) {
                    let j = choose|j: int| 0 <= j < i && ks.take(i as int)[j] == k;
                    assert(crate::order::seq_lt(ks[j], ks[i as int]));
                    crate::order::lemma_seq_lt_irreflexive(k);
                }
            }
            let nb = seen_b + as_ints(bg@);
            let nc = seen_c + as_ints(cg@);
            assert forall|a: int, b: int| 0 <= a < nb.len() && 0 <= b < nb.len() && a != b implies nb[a] != nb[b] by {
                if a >= seen_b.len() && b >= seen_b.len() {
                    assert(bg@[a - seen_b.len()] != bg@[b - seen_b.len()]);
                } else if a < seen_b.len() && b >= seen_b.len() {
                    assert(bg@.contains(bg@[b - seen_b.len()]));
                } else if a >= seen_b.len() && b < seen_b.len() {
                    assert(bg@.contains(bg@[a - seen_b.len()]));
                }
            }
            assert forall|a: int, b: int| 0 <= a < nc.len() && 0 <= b < nc.len() && a != b implies nc[a] != nc[b] by {
                if a >= seen_c.len() && b >= seen_c.len() {
                    assert(cg@[a - seen_c.len()] != cg@[b - seen_c.len()]);
                } else if a < seen_c.len() && b >= seen_c.len() {
                    assert(cg@.contains(cg@[b - seen_c.len()]));
                } else if a >= seen_c.len() && b < seen_c.len() {
                    assert(cg@.contains(cg@[a - seen_c.len()]));
                }
            }
            assert(ks.take(i + 1) == ks.take(i as int).push(k));
            assert forall|x: int| 0 <= x < nb.len() implies 0 <= #[trigger] nb[x] < bf.len() && ks.take(i + 1).contains(
                flow_key(bf[nb[x]]),
            ) by {
                if x < seen_b.len() {
                    let j = choose|j: int| 0 <= j < i && ks.take(i as int)[j] == flow_key(bf[nb[x]]);
                    assert(ks.take(i + 1)[j] == flow_key(bf[nb[x]]));
                } else {
                    assert(bg@.contains(bg@[x - seen_b.len()]));
                    assert(ks.take(i + 1)[i as int] == k);
                }
            }
            assert forall|x: int| 0 <= x < nc.len() implies 0 <= #[trigger] nc[x] < cf.len() && ks.take(i + 1).contains(
                flow_key(cf[nc[x]]),
            ) by {
                if x < seen_c.len() {
                    let j = choose|j: int| 0 <= j < i && ks.take(i as int)[j] == flow_key(cf[nc[x]]);
                    assert(ks.take(i + 1)[j] == flow_key(cf[nc[x]]));
                } else {
                    assert(cg@.contains(cg@[x - seen_c.len()]));
                    assert(ks.take(i + 1)[i as int] == k);
                }
            }
            seen_b = nb;
            seen_c = nc;
        }
        let e = compare_endpoint(key, &baseline.flows, &candidate.flows, &bg, &cg);
        let ghost before = endpoints@;
        endpoints.push(e);
        proof {
            assert(endpoints@.drop_last() == before);
            assert(all_calls(endpoints@) == all_calls(before) + e.calls@);
            assert(endpoint_keys(endpoints@) == endpoint_keys(before).push(k));
            assert(endpoint_from_groups(bf, cf, endpoints@[i as int].endpoint_key@, bg@, cg@, endpoints@[i as int]));
            let old_bgs = bgs;
            let old_cgs = cgs;
            bgs = bgs.push(bg@);
            cgs = cgs.push(cg@);
            assert forall|j: int| 0 <= j < endpoints@.len() implies #[trigger] endpoint_from_groups(
                bf,
                cf,
                endpoints@[j].endpoint_key@,
                bgs[j],
                cgs[j],
                endpoints@[j],
            ) by {
                if j < i {
                    assert(endpoints@[j] == before[j]);
                    assert(bgs[j] == old_bgs[j]);
                    assert(cgs[j] == old_cgs[j]);
                }
            }
        }
    }
    proof {
        assert(ks.take(ks.len() as int) == ks);
        lemma_distinct_indices_bound(seen_b, bf.len() as int);
        lemma_distinct_indices_bound(seen_c, cf.len() as int);
        assert(endpoint_keys(endpoints@) == ks);
        assert forall|j: int| 0 <= j < endpoints@.len() implies #[trigger] endpoint_of_groups(bf, cf, endpoints@[j]) by {
            assert(endpoint_from_groups(bf, cf, endpoints@[j].endpoint_key@, bgs[j], cgs[j], endpoints@[j]));
        }
        assert(crate::order::strictly_sorted(endpoint_keys(endpoints@)));
        assert(forall|k: Seq<char>| #[trigger] endpoint_keys(endpoints@).contains(k) <==> (keys_of_flows(bf).contains(k)
            || keys_of_flows(cf).contains(k)));
        assert(is_endpoint_list(bf, cf, endpoints@));
    }
    let summary = summarize(&endpoints);
    SessionComparison {
        schema_version: COMPARE_SCHEMA_VERSION,
        baseline_session: baseline.session,
        candidate_session: candidate.session,
        endpoints,
        summary,
        baseline_diagnostics,
        candidate_diagnostics,
    }
}


// ---------------------------------------------------------------------------
// Diagnostics: repeated calls
// ---------------------------------------------------------------------------

/// `later - earlier`, or zero where `later` is earlier.
pub open spec fn saturating_gap(later: u128, earlier: u128) -> u128 {
    if later >= earlier {
        (later - earlier) as u128
    } else {
        0
    }
}

/// Flow `b` looks like a retry of flow `a`: `a` failed and `b` started
/// within five seconds of it.
pub open spec fn likely_retry(fs: Seq<ComparableFlow>, a: usize, b: usize) -> bool {
    saturating_gap(flow_stamp(fs[b as int]), flow_stamp(fs[a as int])) <= 5000 && is_error_flow(fs[a as int])
}

/// How many consecutive calls of a group look like retries.
pub open spec fn retry_count(fs: Seq<ComparableFlow>, g: Seq<usize>) -> nat
    decreases g.len(),
{
    if g.len() < 2 {
        0
    } else {
        retry_count(fs, g.drop_last()) + if likely_retry(fs, g[g.len() - 2], g[g.len() - 1]) {
            1nat
        } else {
            0nat
        }
    }
}

pub open spec fn flow_ids_of(fs: Seq<ComparableFlow>, g: Seq<usize>) -> Seq<Seq<char>> {
    g.map_values(|i: usize| fs[i as int].detail.summary.id@)
}

/// `d` reports the repeated calls `g` of its endpoint.
pub open spec fn duplicate_from_group(fs: Seq<ComparableFlow>, g: Seq<usize>, d: DuplicateDiagnostic) -> bool {
    &&& is_group(fs, d.endpoint_key@, g)
    &&& g.len() >= 2
    &&& d.call_count == g.len()
    &&& d.likely_retry_count == retry_count(fs, g)
    &&& crate::order::string_views(d.flow_ids@) == flow_ids_of(fs, g)
}

pub open spec fn duplicate_of_group(fs: Seq<ComparableFlow>, d: DuplicateDiagnostic) -> bool {
    exists|g: Seq<usize>| #[trigger] duplicate_from_group(fs, g, d)
}

/// More calls first; equal counts by endpoint key.
pub open spec fn duplicate_before(a: DuplicateDiagnostic, b: DuplicateDiagnostic) -> bool {
    a.call_count > b.call_count || (a.call_count == b.call_count && crate::order::seq_lt(
        a.endpoint_key@,
        b.endpoint_key@,
    ))
}

/// How many flows call an endpoint.
pub open spec fn key_count(fs: Seq<ComparableFlow>, key: Seq<char>) -> nat {
    Set::new(|i: usize| i < fs.len() && flow_key(fs[i as int]) == key).len()
}

pub open spec fn duplicate_keys(ds: Seq<DuplicateDiagnostic>) -> Seq<Seq<char>> {
    ds.map_values(|d: DuplicateDiagnostic| d.endpoint_key@)
}

/// `ds` reports each endpoint called more than once, most calls first.
pub open spec fn is_duplicate_list(fs: Seq<ComparableFlow>, ds: Seq<DuplicateDiagnostic>) -> bool {
    &&& forall|a: int, b: int| 0 <= a < b < ds.len() ==> duplicate_before(#[trigger] ds[a], #[trigger] ds[b])
    &&& forall|k: Seq<char>| #[trigger] duplicate_keys(ds).contains(k) <==> key_count(fs, k) >= 2
    &&& forall|i: int| 0 <= i < ds.len() ==> #[trigger] duplicate_of_group(fs, ds[i])
}

/// A group has as many flows as call its endpoint.
proof fn lemma_group_len(fs: Seq<ComparableFlow>, key: Seq<char>, g: Seq<usize>)
    requires
        is_group(fs, key, g),
    ensures
        g.len() == key_count(fs, key),
{
    lemma_group_no_duplicates(fs, key, g);
    g.unique_seq_to_set();
    assert(g.to_set() =~= Set::new(|i: usize| i < fs.len() && flow_key(fs[i as int]) == key));
}

/// The retries among the consecutive calls of a group.
fn count_retries(flows: &Vec<ComparableFlow>, stamps: &Vec<u128>, g: &Vec<usize>) -> (n: usize)
    requires
        stamps@.len() == flows@.len(),
        forall|i: int| 0 <= i < flows@.len() ==> #[trigger] stamps@[i] == flow_stamp(flows@[i]),
        forall|a: int| 0 <= a < g@.len() ==> #[trigger] g@[a] < flows@.len(),
    ensures
        n == retry_count(flows@, g@),
{
    let mut n: usize = 0;
    if g.len() < 2 {
        return 0;
    }
    let mut j: usize = 1;
    assert(g@.take(1).len() < 2);
    while j < g.len()
        invariant
            1 <= j <= g@.len(),
            n <= j,
            n == retry_count(flows@, g@.take(j as int)),
            stamps@.len() == flows@.len(),
            forall|i: int| 0 <= i < flows@.len() ==> #[trigger] stamps@[i] == flow_stamp(flows@[i]),
            forall|a: int| 0 <= a < g@.len() ==> #[trigger] g@[a] < flows@.len(),
        decreases g@.len() - j,
    {
        let a = g[j - 1];
        let b = g[j];
        let sa = stamps[a];
        let sb = stamps[b];
        let gap: u128 = if sb >= sa {
            sb - sa
        } else {
            0
        };
        let ghost t = g@.take(j + 1);
        assert(t.drop_last() == g@.take(j as int));
        assert(t[t.len() - 2] == a && t[t.len() - 1] == b);
        if gap <= 5000 && is_error(&flows[a]) {
            n = n + 1;
        }
        j = j + 1;
    }
    assert(g@.take(g@.len() as int) == g@);
    n
}

fn ids_of_group(flows: &Vec<ComparableFlow>, g: &Vec<usize>) -> (ids: Vec<String>)
    requires
        forall|a: int| 0 <= a < g@.len() ==> #[trigger] g@[a] < flows@.len(),
    ensures
        crate::order::string_views(ids@) == flow_ids_of(flows@, g@),
{
    let mut ids: Vec<String> = Vec::new();
    for j in 0..g.len()
        invariant
            forall|a: int| 0 <= a < g@.len() ==> #[trigger] g@[a] < flows@.len(),
            crate::order::string_views(ids@) == flow_ids_of(flows@, g@.take(j as int)),
    {
        let ghost before = crate::order::string_views(ids@);
        ids.push(copy_string(&flows[g[j]].detail.summary.id));
        assert(crate::order::string_views(ids@) == before.push(flows@[g@[j as int] as int].detail.summary.id@));
        assert(flow_ids_of(flows@, g@.take(j + 1)) == flow_ids_of(flows@, g@.take(j as int)).push(
            flows@[g@[j as int] as int].detail.summary.id@,
        ));
    }
    assert(g@.take(g@.len() as int) == g@);
    ids
}

/// The endpoints called more than once, most calls first.
pub fn duplicate_diagnostics(flows: &Vec<ComparableFlow>) -> (ds: Vec<DuplicateDiagnostic>)
    ensures
        is_duplicate_list(flows@, ds@),
{
    let ghost fs = flows@;
    let keys = flow_keys(flows);
    let stamps = flow_stamps(flows);
    let none: Vec<String> = Vec::new();
    let unique = crate::order::sorted_union(&keys, &none);
    let ghost ks = crate::order::string_views(unique@);
    proof {
        assert forall|k: Seq<char>| #[trigger] ks.contains(k) <==> keys_of_flows(fs).contains(k) by {
            assert(crate::order::string_views(keys@) == keys_of_flows(fs));
            assert(!crate::order::string_views(none@).contains(k));
        }
    }
    let mut out: Vec<DuplicateDiagnostic> = Vec::new();
    for i in 0..unique.len()
        invariant
            fs == flows@,
            ks == crate::order::string_views(unique@),
            crate::order::strictly_sorted(ks),
            forall|k: Seq<char>| #[trigger] ks.contains(k) <==> keys_of_flows(fs).contains(k),
            keys@.len() == fs.len(),
            stamps@.len() == fs.len(),
            forall|k: int| 0 <= k < fs.len() ==> (#[trigger] keys@[k])@ == flow_key(fs[k]),
            forall|k: int| 0 <= k < fs.len() ==> #[trigger] stamps@[k] == flow_stamp(fs[k]),
            forall|a: int, b: int| 0 <= a < b < out@.len() ==> duplicate_before(#[trigger] out@[a], #[trigger] out@[b]),
            forall|a: int| 0 <= a < out@.len() ==> ks.take(i as int).contains(#[trigger] out@[a].endpoint_key@),
            forall|k: Seq<char>| #[trigger] duplicate_keys(out@).contains(k) <==> (ks.take(i as int).contains(k)
                && key_count(fs, k) >= 2),
            forall|a: int| 0 <= a < out@.len() ==> #[trigger] duplicate_of_group(fs, out@[a]),
    {
        let key = &unique[i];
        let g = group_indices(flows, &keys, &stamps, key);
        let ghost k = key@;
        proof {
            lemma_group_len(fs, k, g@);
            assert(ks[i as int] == k);
            assert(ks.take(i + 1) == ks.take(i as int).push(k));
            assert forall|a: int| 0 <= a < g@.len() implies #[trigger] g@[a] < flows@.len() by {
                assert(g@.contains(g@[a]));
            }
        }
        if g.len() >= 2 {
            let retries = count_retries(flows, &stamps, &g);
            let ids = ids_of_group(flows, &g);
            let d = DuplicateDiagnostic {
                endpoint_key: copy_string(key),
                call_count: g.len(),
                likely_retry_count: retries,
                flow_ids: ids,
            };
            assert(duplicate_from_group(fs, g@, d));
            let mut p: usize = 0;
            while p < out.len()
                invariant
                    p <= out@.len(),
                    forall|a: int| 0 <= a < p ==> (#[trigger] out@[a]).call_count >= d.call_count,
                ensures
                    p <= out@.len(),
                    forall|a: int| 0 <= a < p ==> (#[trigger] out@[a]).call_count >= d.call_count,
                    p < out@.len() ==> out@[p as int].call_count < d.call_count,
                decreases out@.len() - p,
            {
                if out[p].call_count < d.call_count {
                    break;
                }
                p = p + 1;
            }
            let ghost old_out = out@;
            out.insert(p, d);
            proof {
                assert(out@ == old_out.insert(p as int, d));
                assert forall|a: int| 0 <= a < old_out.len() implies crate::order::seq_lt(
                    (#[trigger] old_out[a]).endpoint_key@,
                    k,
                ) by {
                    let j = choose|j: int| 0 <= j < i && ks.take(i as int)[j] == old_out[a].endpoint_key@;
                    assert(crate::order::seq_lt(ks[j], ks[i as int]));
                }
                assert forall|a: int, b: int| 0 <= a < b < out@.len() implies duplicate_before(
                    #[trigger] out@[a],
                    #[trigger] out@[b],
                ) by {
                    if b < p {
                    } else if a < p && b == p {
                        assert(old_out[a] == out@[a]);
                    } else if a < p {
                        assert(out@[b] == old_out[b - 1]);
                        if b - 1 > p {
                            assert(duplicate_before(old_out[p as int], old_out[b - 1]));
                        }
                    } else if a == p {
                        assert(out@[b] == old_out[b - 1]);
                        if b - 1 > p {
                            assert(duplicate_before(old_out[p as int], old_out[b - 1]));
                        }
                    } else {
                        assert(out@[a] == old_out[a - 1]);
                        assert(out@[b] == old_out[b - 1]);
                    }
                }
                assert forall|a: int| 0 <= a < out@.len() implies ks.take(i + 1).contains(#[trigger] out@[a].endpoint_key@) by {
                    if a == p {
                        assert(ks.take(i + 1)[i as int] == k);
                    } else {
                        let x = if a < p { old_out[a] } else { old_out[a - 1] };
                        assert(out@[a] == x);
                        let j = choose|j: int| 0 <= j < i && ks.take(i as int)[j] == x.endpoint_key@;
                        assert(ks.take(i + 1)[j] == x.endpoint_key@);
                    }
                }
                assert forall|a: int| 0 <= a < out@.len() implies #[trigger] duplicate_of_group(fs, out@[a]) by {
                    if a == p {
                        assert(duplicate_from_group(fs, g@, out@[a]));
                    } else if a < p {
                        assert(out@[a] == old_out[a]);
                    } else {
                        assert(out@[a] == old_out[a - 1]);
                    }
                }
                let okeys = duplicate_keys(old_out);
                let nkeys = duplicate_keys(out@);
                assert(nkeys == okeys.insert(p as int, k));
                assert forall|x: Seq<char>| #[trigger] nkeys.contains(x) <==> (ks.take(i + 1).contains(x) && key_count(fs, x) >= 2) by {
                    crate::order::lemma_insert_to_set(okeys, p as int, k);
                    assert(nkeys.to_set().contains(x) == nkeys.contains(x));
                    assert(okeys.to_set().contains(x) == okeys.contains(x));
                    let next = ks.take(i + 1);
                    if next.contains(x) && x != k {
                        let j = choose|j: int| 0 <= j <= i && next[j] == x;
                        assert(j < i);
                        assert(ks.take(i as int)[j] == x);
                    }
                    if ks.take(i as int).contains(x) {
                        let j = choose|j: int| 0 <= j < i && ks.take(i as int)[j] == x;
                        assert(ks.take(i + 1)[j] == x);
                    }
                }
            }
        } else {
            proof {
                let okeys = duplicate_keys(out@);
                assert forall|x: Seq<char>| #[trigger] okeys.contains(x) <==> (ks.take(i + 1).contains(x) && key_count(fs, x) >= 2) by {
                    let next = ks.take(i + 1);
                    if next.contains(x) && x != k {
                        let j = choose|j: int| 0 <= j <= i && next[j] == x;
                        assert(j < i);
                        assert(ks.take(i as int)[j] == x);
                    }
                    if ks.take(i as int).contains(x) {
                        let j = choose|j: int| 0 <= j < i && ks.take(i as int)[j] == x;
                        assert(ks.take(i + 1)[j] == x);
                    }
                }
                assert forall|a: int| 0 <= a < out@.len() implies ks.take(i + 1).contains(#[trigger] out@[a].endpoint_key@) by {
                    let j = choose|j: int| 0 <= j < i && ks.take(i as int)[j] == out@[a].endpoint_key@;
                    assert(ks.take(i + 1)[j] == out@[a].endpoint_key@);
                }
            }
        }
    }
    proof {
        assert(ks.take(ks.len() as int) == ks);
        assert forall|x: Seq<char>| #[trigger] duplicate_keys(out@).contains(x) <==> key_count(fs, x) >= 2 by {
            if key_count(fs, x) >= 2 {
                let set = Set::new(|i: usize| i < fs.len() && flow_key(fs[i as int]) == x);
                assert(set.len() > 0);
                if !keys_of_flows(fs).contains(x) {
                    assert forall|i: usize| !set.contains(i) by {
                        if i < fs.len() && flow_key(fs[i as int]) == x {
                            assert(keys_of_flows(fs)[i as int] == x);
                        }
                    }
                    assert(set =~= Set::empty());
                }
            }
        }
    }
    out
}


// ---------------------------------------------------------------------------
// Diagnostics: the slowest calls
// ---------------------------------------------------------------------------

/// Flow `i` ranks before flow `j` among the slowest: it took longer, or as
/// long with a smaller id, or is earlier in the session.
pub open spec fn slow_before(fs: Seq<ComparableFlow>, i: int, j: int) -> bool {
    let ti = total_ms_of(fs[i])->0;
    let tj = total_ms_of(fs[j])->0;
    let a = fs[i].detail.summary.id@;
    let b = fs[j].detail.summary.id@;
    ti > tj || (ti == tj && crate::order::seq_lt(a, b)) || (ti == tj && a == b && i < j)
}

proof fn lemma_slow_total(fs: Seq<ComparableFlow>, i: int, j: int)
    requires
        i != j,
    ensures
        slow_before(fs, i, j) || slow_before(fs, j, i),
{
    crate::order::lemma_seq_lt_total(fs[i].detail.summary.id@, fs[j].detail.summary.id@);
}

proof fn lemma_slow_transitive(fs: Seq<ComparableFlow>, i: int, j: int, k: int)
    requires
        slow_before(fs, i, j),
        slow_before(fs, j, k),
    ensures
        slow_before(fs, i, k),
{
    let a = fs[i].detail.summary.id@;
    let b = fs[j].detail.summary.id@;
    let c = fs[k].detail.summary.id@;
    if crate::order::seq_lt(a, b) && crate::order::seq_lt(b, c) {
        crate::order::lemma_seq_lt_transitive(a, b, c);
    }
}

pub open spec fn slow_entry(fs: Seq<ComparableFlow>, i: int, d: SlowRequestDiagnostic) -> bool {
    &&& d.flow_id@ == fs[i].detail.summary.id@
    &&& d.endpoint_key@ == flow_key(fs[i])
    &&& total_ms_of(fs[i]) == Some(d.total_ms)
    &&& d.status_code == fs[i].detail.summary.status_code
}

/// `ds` reports the flows `order`: the (at most `limit`) slowest of the
/// flows with a known duration, slowest first.
pub open spec fn slowest_from(fs: Seq<ComparableFlow>, limit: nat, order: Seq<usize>, ds: Seq<SlowRequestDiagnostic>) -> bool {
    &&& ds.len() == order.len()
    &&& order.len() <= limit
    &&& forall|a: int, b: int| 0 <= a < b < order.len() ==> slow_before(fs, #[trigger] order[a] as int, #[trigger] order[b] as int)
    &&& forall|a: int| 0 <= a < order.len() ==> #[trigger] order[a] < fs.len() && slow_entry(fs, order[a] as int, ds[a])
    &&& forall|i: usize| i < fs.len() && total_ms_of(fs[i as int]) is Some && !(#[trigger] order.contains(i)) ==> (order.len() == limit
        && forall|a: int| 0 <= a < order.len() ==> slow_before(fs, #[trigger] order[a] as int, i as int))
}

pub open spec fn is_slowest_list(fs: Seq<ComparableFlow>, limit: nat, ds: Seq<SlowRequestDiagnostic>) -> bool {
    exists|order: Seq<usize>| #[trigger] slowest_from(fs, limit, order, ds)
}

/// The slowest `limit` flows with a known duration, slowest first.
pub fn slowest_diagnostics(flows: &Vec<ComparableFlow>, limit: usize) -> (ds: Vec<SlowRequestDiagnostic>)
    ensures
        is_slowest_list(flows@, limit as nat, ds@),
{
    let ghost fs = flows@;
    let mut order: Vec<usize> = Vec::new();
    for i in 0..flows.len()
        invariant
            fs == flows@,
            forall|a: int, b: int| 0 <= a < b < order@.len() ==> slow_before(fs, #[trigger] order@[a] as int, #[trigger] order@[b] as int),
            forall|k: usize| #[trigger] order@.contains(k) <==> (k < i && total_ms_of(fs[k as int]) is Some),
            forall|a: int| 0 <= a < order@.len() ==> #[trigger] order@[a] < i,
    {
        match flow_total_ms(&flows[i]) {
            Some(t) => {
                let id = crate::text::chars_of(flows[i].detail.summary.id.as_str());
                proof {
                    assert forall|a: int| 0 <= a < order@.len() implies total_ms_of(fs[#[trigger] order@[a] as int]) is Some by {
                        assert(order@.contains(order@[a]));
                    }
                }
                let mut j: usize = 0;
                while j < order.len()
                    invariant
                        j <= order@.len(),
                        fs == flows@,
                        i < fs.len(),
                        total_ms_of(fs[i as int]) == Some(t),
                        id@ == fs[i as int].detail.summary.id@,
                        forall|a: int| 0 <= a < order@.len() ==> #[trigger] order@[a] < i,
                        forall|a: int| 0 <= a < order@.len() ==> total_ms_of(fs[#[trigger] order@[a] as int]) is Some,
                        forall|a: int| 0 <= a < j ==> !slow_before(fs, i as int, #[trigger] order@[a] as int),
                    ensures
                        j <= order@.len(),
                        forall|a: int| 0 <= a < j ==> !slow_before(fs, i as int, #[trigger] order@[a] as int),
                        j < order@.len() ==> slow_before(fs, i as int, order@[j as int] as int),
                    decreases order@.len() - j,
                {
                    let other = order[j];
                    let other_total = match flow_total_ms(&flows[other]) {
                        Some(v) => v,
                        None => 0,
                    };
                    let other_id = crate::text::chars_of(flows[other].detail.summary.id.as_str());
                    if t > other_total || (t == other_total && crate::order::chars_lt(&id, &other_id)) {
                        break;
                    }
                    j = j + 1;
                }
                let ghost old_order = order@;
                order.insert(j, i);
                proof {
                    assert(order@ == old_order.insert(j as int, i));
                    assert forall|a: int, b: int| 0 <= a < b < order@.len() implies slow_before(
                        fs,
                        #[trigger] order@[a] as int,
                        #[trigger] order@[b] as int,
                    ) by {
                        if b < j {
                        } else if a < j && b == j {
                            lemma_slow_total(fs, i as int, order@[a] as int);
                        } else if a < j {
                            assert(order@[b] == old_order[b - 1]);
                            lemma_slow_total(fs, i as int, order@[a] as int);
                            if b - 1 > j {
                                assert(slow_before(fs, old_order[j as int] as int, old_order[b - 1] as int));
                                lemma_slow_transitive(fs, i as int, old_order[j as int] as int, old_order[b - 1] as int);
                            }
                            lemma_slow_transitive(fs, order@[a] as int, i as int, order@[b] as int);
                        } else if a == j {
                            assert(order@[b] == old_order[b - 1]);
                            if b - 1 > j {
                                assert(slow_before(fs, old_order[j as int] as int, old_order[b - 1] as int));
                                lemma_slow_transitive(fs, i as int, old_order[j as int] as int, old_order[b - 1] as int);
                            }
                        } else {
                            assert(order@[a] == old_order[a - 1]);
                            assert(order@[b] == old_order[b - 1]);
                        }
                    }
                    assert forall|k: usize| #[trigger] order@.contains(k) <==> (k < i + 1 && total_ms_of(fs[k as int]) is Some) by {
                        if order@.contains(k) {
                            let a = choose|a: int| 0 <= a < order@.len() && order@[a] == k;
                            if a < j {
                                assert(old_order[a] == k);
                                assert(old_order.contains(k));
                            } else if a > j {
                                assert(old_order[a - 1] == k);
                                assert(old_order.contains(k));
                            }
                        }
                        if k < i + 1 && total_ms_of(fs[k as int]) is Some {
                            if k == i {
                                assert(order@[j as int] == i);
                            } else {
                                assert(old_order.contains(k));
                                let a = choose|a: int| 0 <= a < old_order.len() && old_order[a] == k;
                                if a < j {
                                    assert(order@[a] == k);
                                } else {
                                    assert(order@[a + 1] == k);
                                }
                            }
                        }
                    }
                    assert forall|a: int| 0 <= a < order@.len() implies #[trigger] order@[a] < i + 1 by {
                        if a < j {
                            assert(order@[a] == old_order[a]);
                        } else if a > j {
                            assert(order@[a] == old_order[a - 1]);
                        }
                    }
                }
            },
            None => {
                proof {
                    assert forall|k: usize| #[trigger] order@.contains(k) <==> (k < i + 1 && total_ms_of(fs[k as int]) is Some) by {
                        if order@.contains(k) {
                            let a = choose|a: int| 0 <= a < order@.len() && order@[a] == k;
                        }
                    }
                }
            },
        }
    }
    proof {
        assert forall|a: int| 0 <= a < order@.len() implies #[trigger] order@[a] < fs.len() && total_ms_of(fs[order@[a] as int]) is Some by {
            assert(order@.contains(order@[a]));
        }
    }
    let count = if order.len() <= limit {
        order.len()
    } else {
        limit
    };
    let mut ds: Vec<SlowRequestDiagnostic> = Vec::new();
    for a in 0..count
        invariant
            fs == flows@,
            count <= order@.len(),
            forall|x: int| 0 <= x < order@.len() ==> #[trigger] order@[x] < fs.len(),
            forall|x: int| 0 <= x < order@.len() ==> total_ms_of(fs[#[trigger] order@[x] as int]) is Some,
            ds@.len() == a,
            forall|x: int| 0 <= x < a ==> slow_entry(fs, order@[x] as int, #[trigger] ds@[x]),
    {
        let f = &flows[order[a]];
        let e = crate::endpoint::normalize_endpoint(
            f.detail.summary.method.as_str(),
            f.detail.summary.host.as_str(),
            f.detail.summary.path.as_str(),
        );
        let total = match flow_total_ms(f) {
            Some(v) => v,
            None => 0,
        };
        ds.push(SlowRequestDiagnostic {
            flow_id: copy_string(&f.detail.summary.id),
            endpoint_key: e.key,
            total_ms: total,
            status_code: f.detail.summary.status_code,
        });
    }
    proof {
        let top = order@.take(count as int);
        assert forall|i: usize| i < fs.len() && total_ms_of(fs[i as int]) is Some && !(#[trigger] top.contains(i)) implies (top.len()
            == limit && forall|a: int| 0 <= a < top.len() ==> slow_before(fs, #[trigger] top[a] as int, i as int)) by {
            assert(order@.contains(i));
            let p = choose|p: int| 0 <= p < order@.len() && order@[p] == i;
            if p < count {
                assert(top[p] == i);
            }
            assert forall|a: int| 0 <= a < top.len() implies slow_before(fs, #[trigger] top[a] as int, i as int) by {
                assert(top[a] == order@[a]);
            }
        }
        assert(slowest_from(fs, limit as nat, top, ds@));
    }
    ds
}


// ---------------------------------------------------------------------------
// Diagnostics: clusters of errors
// ---------------------------------------------------------------------------

pub open spec fn status_text(status: Option<u16>) -> Seq<char> {
    match status {
        Some(v) => crate::text::decimal(v as nat),
        None => "none"@,
    }
}

pub open spec fn code_text(code: Option<String>) -> Seq<char> {
    match code {
        Some(v) => v@,
        None => "none"@,
    }
}

/// The cluster a failed flow belongs to: `endpoint|status|error code`.
pub open spec fn error_key(f: ComparableFlow) -> Seq<char> {
    flow_key(f) + "|"@ + status_text(f.detail.summary.status_code) + "|"@ + code_text(f.detail.error_code)
}

/// The failed flows of cluster `key`, in order.
pub open spec fn error_flows(fs: Seq<ComparableFlow>, key: Seq<char>) -> Seq<ComparableFlow>
    decreases fs.len(),
{
    if fs.len() == 0 {
        seq![]
    } else if is_error_flow(fs.last()) && error_key(fs.last()) == key {
        error_flows(fs.drop_last(), key).push(fs.last())
    } else {
        error_flows(fs.drop_last(), key)
    }
}

pub proof fn lemma_error_flows_len(fs: Seq<ComparableFlow>, key: Seq<char>)
    ensures
        error_flows(fs, key).len() <= fs.len(),
    decreases fs.len(),
{
    if fs.len() > 0 {
        lemma_error_flows_len(fs.drop_last(), key);
    }
}

/// `c` describes its cluster: how many flows failed so, which, and the
/// endpoint, status and error code of the first of them.
pub open spec fn cluster_holds(fs: Seq<ComparableFlow>, c: ErrorClusterDiagnostic) -> bool {
    let m = error_flows(fs, c.key@);
    &&& m.len() > 0
    &&& c.count == m.len()
    &&& crate::order::string_views(c.flow_ids@) == m.map_values(|f: ComparableFlow| f.detail.summary.id@)
    &&& c.endpoint_key@ == flow_key(m[0])
    &&& c.status_code == m[0].detail.summary.status_code
    &&& opt_view(c.error_code) == opt_view(m[0].detail.error_code)
}

/// Larger clusters first; equal sizes by key.
pub open spec fn error_before(a: ErrorClusterDiagnostic, b: ErrorClusterDiagnostic) -> bool {
    a.count > b.count || (a.count == b.count && crate::order::seq_lt(a.key@, b.key@))
}

pub open spec fn cluster_keys(cs: Seq<ErrorClusterDiagnostic>) -> Seq<Seq<char>> {
    cs.map_values(|c: ErrorClusterDiagnostic| c.key@)
}

/// `cs` reports each cluster of failed flows, largest first.
pub open spec fn is_error_list(fs: Seq<ComparableFlow>, cs: Seq<ErrorClusterDiagnostic>) -> bool {
    &&& forall|a: int, b: int| 0 <= a < b < cs.len() ==> error_before(#[trigger] cs[a], #[trigger] cs[b])
    &&& forall|k: Seq<char>| #[trigger] cluster_keys(cs).contains(k) <==> error_flows(fs, k).len() > 0
    &&& forall|i: int| 0 <= i < cs.len() ==> #[trigger] cluster_holds(fs, cs[i])
}

fn error_key_of(f: &ComparableFlow) -> (r: String)
    ensures
        r@ == error_key(*f),
{
    let s = &f.detail.summary;
    let e = crate::endpoint::normalize_endpoint(s.method.as_str(), s.host.as_str(), s.path.as_str());
    let mut v = crate::text::chars_of(e.key.as_str());
    crate::text::extend_str(&mut v, "|");
    match s.status_code {
        Some(code) => crate::text::extend_str(&mut v, crate::text::decimal_string(code as u64).as_str()),
        None => crate::text::extend_str(&mut v, "none"),
    }
    crate::text::extend_str(&mut v, "|");
    match &f.detail.error_code {
        Some(code) => crate::text::extend_str(&mut v, code.as_str()),
        None => crate::text::extend_str(&mut v, "none"),
    }
    crate::text::string_of(&v)
}

proof fn lemma_error_before_total(a: ErrorClusterDiagnostic, b: ErrorClusterDiagnostic)
    requires
        a.key@ != b.key@,
    ensures
        error_before(a, b) || error_before(b, a),
{
    crate::order::lemma_seq_lt_total(a.key@, b.key@);
}

proof fn lemma_error_before_transitive(a: ErrorClusterDiagnostic, b: ErrorClusterDiagnostic, c: ErrorClusterDiagnostic)
    requires
        error_before(a, b),
        error_before(b, c),
    ensures
        error_before(a, c),
{
    if a.count == b.count && b.count == c.count {
        crate::order::lemma_seq_lt_transitive(a.key@, b.key@, c.key@);
    }
}

/// The clusters of failed flows, in the order they first failed.
fn collect_clusters(flows: &Vec<ComparableFlow>) -> (cs: Vec<ErrorClusterDiagnostic>)
    ensures
        cluster_keys(cs@).no_duplicates(),
        forall|k: Seq<char>| #[trigger] cluster_keys(cs@).contains(k) <==> error_flows(flows@, k).len() > 0,
        forall|i: int| 0 <= i < cs@.len() ==> #[trigger] cluster_holds(flows@, cs@[i]),
{
    let ghost fs = flows@;
    let mut cs: Vec<ErrorClusterDiagnostic> = Vec::new();
    let mut i: usize = 0;
    while i < flows.len()
        invariant
            fs == flows@,
            i <= fs.len(),
            cluster_keys(cs@).no_duplicates(),
            forall|k: Seq<char>| #[trigger] cluster_keys(cs@).contains(k) <==> error_flows(fs.take(i as int), k).len() > 0,
            forall|a: int| 0 <= a < cs@.len() ==> #[trigger] cluster_holds(fs.take(i as int), cs@[a]),
        decreases fs.len() - i,
    {
        let f = &flows[i];
        let ghost prev = fs.take(i as int);
        let ghost next = fs.take(i + 1);
        assert(next.drop_last() == prev);
        assert(next.last() == *f);
        if is_error(f) {
            let key = error_key_of(f);
            let ghost k = key@;
            let mut j: usize = 0;
            while j < cs.len()
                invariant
                    j <= cs@.len(),
                    k == key@,
                    forall|a: int| 0 <= a < j ==> (#[trigger] cs@[a]).key@ != k,
                ensures
                    j <= cs@.len(),
                    forall|a: int| 0 <= a < j ==> (#[trigger] cs@[a]).key@ != k,
                    j < cs@.len() ==> cs@[j as int].key@ == k,
                decreases cs@.len() - j,
            {
                if crate::text::str_eq(cs[j].key.as_str(), key.as_str()) {
                    break;
                }
                j = j + 1;
            }
            proof {
                assert forall|x: Seq<char>| x != k implies #[trigger] error_flows(next, x) == error_flows(prev, x) by {}
                assert(error_flows(next, k) == error_flows(prev, k).push(*f));
                lemma_error_flows_len(prev, k);
            }
            if j < cs.len() {
                let ghost old_cs = cs@;
                let mut c = cs.remove(j);
                proof {
                    assert(cluster_holds(prev, old_cs[j as int]));
                    assert(c == old_cs[j as int]);
                    assert(c.count <= i);
                }
                let ghost old_ids = crate::order::string_views(c.flow_ids@);
                c.count = c.count + 1;
                c.flow_ids.push(copy_string(&f.detail.summary.id));
                cs.insert(j, c);
                proof {
                    assert(cs@ == old_cs.update(j as int, c));
                    let m = error_flows(prev, k);
                    assert(crate::order::string_views(c.flow_ids@) == old_ids.push(f.detail.summary.id@));
                    assert(m.push(*f).map_values(|g: ComparableFlow| g.detail.summary.id@) == m.map_values(
                        |g: ComparableFlow| g.detail.summary.id@,
                    ).push(f.detail.summary.id@));
                    assert(m.push(*f)[0] == m[0]);
                    assert(cluster_keys(cs@) == cluster_keys(old_cs));
                    assert forall|a: int| 0 <= a < cs@.len() implies #[trigger] cluster_holds(next, cs@[a]) by {
                        if a != j {
                            assert(cs@[a] == old_cs[a]);
                            assert(cluster_keys(old_cs)[a] != cluster_keys(old_cs)[j as int]);
                            assert(cluster_holds(prev, old_cs[a]));
                        }
                    }
                    assert forall|x: Seq<char>| #[trigger] cluster_keys(cs@).contains(x) <==> error_flows(next, x).len() > 0 by {
                        if x == k {
                            assert(cluster_keys(cs@)[j as int] == k);
                        }
                    }
                }
            } else {
                let c = ErrorClusterDiagnostic {
                    key: copy_string(&key),
                    endpoint_key: {
                        let s = &f.detail.summary;
                        let e = crate::endpoint::normalize_endpoint(s.method.as_str(), s.host.as_str(), s.path.as_str());
                        e.key
                    },
                    status_code: f.detail.summary.status_code,
                    error_code: copy_opt_string(&f.detail.error_code),
                    count: 1,
                    flow_ids: {
                        let mut ids: Vec<String> = Vec::new();
                        ids.push(copy_string(&f.detail.summary.id));
                        ids
                    },
                };
                let ghost old_cs = cs@;
                assert(forall|a: int| 0 <= a < old_cs.len() ==> #[trigger] cluster_holds(prev, old_cs[a]));
                proof {
                    assert(!cluster_keys(old_cs).contains(k)) by {
                        if cluster_keys(old_cs).contains(k) {
                            let a = choose|a: int| 0 <= a < old_cs.len() && cluster_keys(old_cs)[a] == k;
                            assert(old_cs[a].key@ == k);
                        }
                    }
                    assert(error_flows(prev, k).len() == 0);
                    assert(error_flows(next, k) =~= seq![*f]);
                    assert(crate::order::string_views(c.flow_ids@) =~= seq![f.detail.summary.id@]);
                    assert(seq![*f].map_values(|g: ComparableFlow| g.detail.summary.id@) =~= seq![f.detail.summary.id@]);
                    assert(cluster_holds(next, c));
                }
                cs.push(c);
                proof {
                    assert(cluster_keys(cs@) == cluster_keys(old_cs).push(k));
                    assert forall|a: int| 0 <= a < cs@.len() implies #[trigger] cluster_holds(next, cs@[a]) by {
                        if a < old_cs.len() {
                            assert(cs@[a] == old_cs[a]);
                            assert(cluster_holds(prev, old_cs[a]));
                            assert(cluster_keys(old_cs).contains(old_cs[a].key@));
                            assert(cluster_keys(old_cs)[a] == old_cs[a].key@);
                        }
                    }
                    assert forall|x: Seq<char>| #[trigger] cluster_keys(cs@).contains(x) <==> error_flows(next, x).len() > 0 by {
                        if x != k {
                            assert(error_flows(next, x) == error_flows(prev, x));
                            assert(cluster_keys(old_cs).contains(x) <==> error_flows(prev, x).len() > 0);
                        }
                        if x == k {
                            assert(cluster_keys(cs@)[old_cs.len() as int] == k);
                        } else if cluster_keys(cs@).contains(x) {
                            let a = choose|a: int| 0 <= a < cs@.len() && cluster_keys(cs@)[a] == x;
                            assert(cluster_keys(old_cs)[a] == x);
                        } else if cluster_keys(old_cs).contains(x) {
                            let a = choose|a: int| 0 <= a < old_cs.len() && cluster_keys(old_cs)[a] == x;
                            assert(cluster_keys(cs@)[a] == x);
                        }
                    }
                }
            }
        } else {
            proof {
                assert forall|x: Seq<char>| #[trigger] error_flows(next, x) == error_flows(prev, x) by {}
                assert forall|a: int| 0 <= a < cs@.len() implies #[trigger] cluster_holds(next, cs@[a]) by {
                    assert(cluster_holds(prev, cs@[a]));
                    assert(error_flows(next, cs@[a].key@) == error_flows(prev, cs@[a].key@));
                }
            }
        }
        i = i + 1;
    }
    assert(fs.take(fs.len() as int) == fs);
    cs
}

/// The clusters of failed flows, largest first.
pub fn error_diagnostics(flows: &Vec<ComparableFlow>) -> (cs: Vec<ErrorClusterDiagnostic>)
    ensures
        is_error_list(flows@, cs@),
{
    let ghost fs = flows@;
    let mut rest = collect_clusters(flows);
    let mut sorted: Vec<ErrorClusterDiagnostic> = Vec::new();
    while rest.len() > 0
        invariant
            forall|a: int, b: int| 0 <= a < b < sorted@.len() ==> error_before(#[trigger] sorted@[a], #[trigger] sorted@[b]),
            forall|a: int| 0 <= a < sorted@.len() ==> #[trigger] cluster_holds(fs, sorted@[a]),
            forall|a: int| 0 <= a < rest@.len() ==> #[trigger] cluster_holds(fs, rest@[a]),
            cluster_keys(rest@).no_duplicates(),
            forall|a: int, b: int| 0 <= a < sorted@.len() && 0 <= b < rest@.len() ==> (#[trigger] sorted@[a]).key@ != (#[trigger] rest@[b]).key@,
            forall|k: Seq<char>| (#[trigger] cluster_keys(sorted@).contains(k) || cluster_keys(rest@).contains(k)) <==> error_flows(fs, k).len() > 0,
            fs == flows@,
        decreases rest@.len(),
    {
        let ghost old_rest = rest@;
        let ghost old_sorted = sorted@;
        let c = rest.remove(0);
        proof {
            assert(c == old_rest[0]);
            assert(rest@ == old_rest.drop_first());
            assert forall|a: int| 0 <= a < rest@.len() implies (#[trigger] rest@[a]).key@ != c.key@ by {
                assert(rest@[a] == old_rest[a + 1]);
                assert(cluster_keys(old_rest)[a + 1] != cluster_keys(old_rest)[0]);
            }
        }
        let mut p: usize = 0;
        while p < sorted.len()
            invariant
                p <= sorted@.len(),
                forall|a: int| 0 <= a < sorted@.len() ==> (#[trigger] sorted@[a]).key@ != c.key@,
                forall|a: int| 0 <= a < p ==> error_before(#[trigger] sorted@[a], c),
            ensures
                p <= sorted@.len(),
                forall|a: int| 0 <= a < p ==> error_before(#[trigger] sorted@[a], c),
                p < sorted@.len() ==> error_before(c, sorted@[p as int]),
            decreases sorted@.len() - p,
        {
            let other = &sorted[p];
            let ck = crate::text::chars_of(c.key.as_str());
            let ok = crate::text::chars_of(other.key.as_str());
            if c.count > other.count || (c.count == other.count && crate::order::chars_lt(&ck, &ok)) {
                break;
            }
            proof {
                lemma_error_before_total(c, *other);
            }
            p = p + 1;
        }
        let ghost ck = c.key@;
        sorted.insert(p, c);
        proof {
            assert(sorted@ == old_sorted.insert(p as int, c));
            assert forall|a: int, b: int| 0 <= a < b < sorted@.len() implies error_before(#[trigger] sorted@[a], #[trigger] sorted@[b]) by {
                if b < p {
                } else if a < p && b == p {
                } else if a < p {
                    assert(sorted@[b] == old_sorted[b - 1]);
                    if b - 1 > p {
                        lemma_error_before_transitive(c, old_sorted[p as int], old_sorted[b - 1]);
                    }
                    lemma_error_before_transitive(sorted@[a], c, sorted@[b]);
                } else if a == p {
                    assert(sorted@[b] == old_sorted[b - 1]);
                    if b - 1 > p {
                        lemma_error_before_transitive(c, old_sorted[p as int], old_sorted[b - 1]);
                    }
                } else {
                    assert(sorted@[a] == old_sorted[a - 1]);
                    assert(sorted@[b] == old_sorted[b - 1]);
                }
            }
            assert forall|a: int| 0 <= a < sorted@.len() implies #[trigger] cluster_holds(fs, sorted@[a]) by {
                if a < p {
                    assert(sorted@[a] == old_sorted[a]);
                } else if a > p {
                    assert(sorted@[a] == old_sorted[a - 1]);
                }
            }
            assert forall|a: int| 0 <= a < rest@.len() implies #[trigger] cluster_holds(fs, rest@[a]) by {
                assert(rest@[a] == old_rest[a + 1]);
            }
            assert(cluster_keys(rest@) == cluster_keys(old_rest).drop_first());
            assert forall|a: int, b: int| 0 <= a < sorted@.len() && 0 <= b < rest@.len() implies (#[trigger] sorted@[a]).key@
                != (#[trigger] rest@[b]).key@ by {
                assert(rest@[b] == old_rest[b + 1]);
                if a < p {
                    assert(sorted@[a] == old_sorted[a]);
                } else if a > p {
                    assert(sorted@[a] == old_sorted[a - 1]);
                } else {
                    assert(cluster_keys(old_rest)[b + 1] != cluster_keys(old_rest)[0]);
                }
            }
            let sk = cluster_keys(sorted@);
            let osk = cluster_keys(old_sorted);
            assert(sk == osk.insert(p as int, ck));
            crate::order::lemma_insert_to_set(osk, p as int, ck);
            assert(cluster_keys(old_rest) == seq![ck] + cluster_keys(rest@));
            assert forall|k: Seq<char>| (#[trigger] cluster_keys(sorted@).contains(k) || cluster_keys(rest@).contains(k)) <==> error_flows(fs, k).len() > 0 by {
                assert(sk.to_set().contains(k) == sk.contains(k));
                assert(osk.to_set().contains(k) == osk.contains(k));
                if cluster_keys(old_rest).contains(k) && k != ck {
                    let a = choose|a: int| 0 <= a < old_rest.len() && cluster_keys(old_rest)[a] == k;
                    assert(cluster_keys(rest@)[a - 1] == k);
                }
                if cluster_keys(rest@).contains(k) {
                    let a = choose|a: int| 0 <= a < rest@.len() && cluster_keys(rest@)[a] == k;
                    assert(cluster_keys(old_rest)[a + 1] == k);
                }
                if k == ck {
                    assert(cluster_keys(old_rest)[0] == k);
                }
            }
        }
    }
    proof {
        assert forall|k: Seq<char>| #[trigger] cluster_keys(sorted@).contains(k) <==> error_flows(fs, k).len() > 0 by {
            assert(!cluster_keys(rest@).contains(k));
        }
    }
    sorted
}


// ---------------------------------------------------------------------------
// Diagnostics: the waterfall
// ---------------------------------------------------------------------------

/// A waterfall group as plain values: kind, start, end, flows, endpoints.
pub type WaterfallView = (WaterfallGroupKind, u128, u128, Seq<Seq<char>>, Seq<Seq<char>>);

pub open spec fn waterfall_view(g: WaterfallGroup) -> WaterfallView {
    (
        g.kind,
        g.started_at_ms,
        g.ended_at_ms,
        crate::order::string_views(g.flow_ids@),
        crate::order::string_views(g.endpoint_keys@),
    )
}

/// When a flow ended: its start plus its duration, held to `u128`.
pub open spec fn flow_end(f: ComparableFlow) -> u128 {
    let sum = flow_stamp(f) + total_ms_of(f)->0;
    if sum > u128::MAX {
        u128::MAX
    } else {
        sum as u128
    }
}

/// The waterfall of flows taken in order: a flow that starts before the
/// current group ends joins it (which then overlaps); any other starts a
/// new, sequential group.
pub open spec fn waterfall_of(fs: Seq<ComparableFlow>, order: Seq<usize>) -> Seq<WaterfallView>
    decreases order.len(),
{
    if order.len() == 0 {
        seq![]
    } else {
        let gs = waterfall_of(fs, order.drop_last());
        let f = fs[order.last() as int];
        let start = flow_stamp(f);
        let end = flow_end(f);
        if gs.len() > 0 && start <= gs.last().2 {
            let g = gs.last();
            gs.update(
                gs.len() - 1,
                (
                    WaterfallGroupKind::Overlap,
                    g.1,
                    if g.2 >= end {
                        g.2
                    } else {
                        end
                    },
                    g.3.push(f.detail.summary.id@),
                    g.4.push(flow_key(f)),
                ),
            )
        } else {
            gs.push((WaterfallGroupKind::Sequential, start, end, seq![f.detail.summary.id@], seq![flow_key(f)]))
        }
    }
}

/// `gs` is the waterfall of the flows with a known duration, taken in the
/// order they started (`order`).
pub open spec fn waterfall_from(fs: Seq<ComparableFlow>, order: Seq<usize>, gs: Seq<WaterfallGroup>) -> bool {
    &&& forall|a: int, b: int| 0 <= a < b < order.len() ==> starts_before(fs, #[trigger] order[a] as int, #[trigger] order[b] as int)
    &&& forall|i: usize| #[trigger] order.contains(i) <==> (i < fs.len() && total_ms_of(fs[i as int]) is Some)
    &&& gs.map_values(|g: WaterfallGroup| waterfall_view(g)) == waterfall_of(fs, order)
}

pub open spec fn is_waterfall(fs: Seq<ComparableFlow>, gs: Seq<WaterfallGroup>) -> bool {
    exists|order: Seq<usize>| #[trigger] waterfall_from(fs, order, gs)
}

/// Groups the flows with a known duration into overlapping and sequential
/// runs, in the order they started.
pub fn waterfall_diagnostics(flows: &Vec<ComparableFlow>) -> (gs: Vec<WaterfallGroup>)
    ensures
        is_waterfall(flows@, gs@),
{
    let ghost fs = flows@;
    let stamps = flow_stamps(flows);
    let mut mask: Vec<bool> = Vec::new();
    for i in 0..flows.len()
        invariant
            fs == flows@,
            mask@.len() == i,
            forall|k: int| 0 <= k < i ==> #[trigger] mask@[k] == (total_ms_of(fs[k]) is Some),
    {
        mask.push(flow_total_ms(&flows[i]).is_some());
    }
    let order = select_by_start(flows, &stamps, &mask);
    proof {
        assert forall|a: int| 0 <= a < order@.len() implies #[trigger] order@[a] < fs.len() && total_ms_of(fs[order@[a] as int]) is Some by {
            assert(order@.contains(order@[a]));
        }
    }
    let mut out: Vec<WaterfallGroup> = Vec::new();
    for k in 0..order.len()
        invariant
            fs == flows@,
            stamps@.len() == fs.len(),
            forall|x: int| 0 <= x < fs.len() ==> #[trigger] stamps@[x] == flow_stamp(fs[x]),
            forall|a: int| 0 <= a < order@.len() ==> #[trigger] order@[a] < fs.len() && total_ms_of(fs[order@[a] as int]) is Some,
            out@.map_values(|g: WaterfallGroup| waterfall_view(g)) == waterfall_of(fs, order@.take(k as int)),
    {
        let idx = order[k];
        let f = &flows[idx];
        let start = stamps[idx];
        let total = match flow_total_ms(f) {
            Some(v) => v,
            None => 0,
        };
        let end: u128 = if start > u128::MAX - (total as u128) {
            u128::MAX
        } else {
            start + total as u128
        };
        let e = crate::endpoint::normalize_endpoint(
            f.detail.summary.method.as_str(),
            f.detail.summary.host.as_str(),
            f.detail.summary.path.as_str(),
        );
        let id = copy_string(&f.detail.summary.id);
        let ghost views = out@.map_values(|g: WaterfallGroup| waterfall_view(g));
        let ghost taken = order@.take(k + 1);
        assert(taken.drop_last() == order@.take(k as int));
        assert(taken.last() == idx);
        let joins = out.len() > 0 && start <= out[out.len() - 1].ended_at_ms;
        if joins {
            let mut g = out.pop().unwrap();
            let ghost old_ids = crate::order::string_views(g.flow_ids@);
            let ghost old_keys = crate::order::string_views(g.endpoint_keys@);
            g.kind = WaterfallGroupKind::Overlap;
            if end > g.ended_at_ms {
                g.ended_at_ms = end;
            }
            g.flow_ids.push(id);
            g.endpoint_keys.push(e.key);
            assert(crate::order::string_views(g.flow_ids@) == old_ids.push(f.detail.summary.id@));
            assert(crate::order::string_views(g.endpoint_keys@) == old_keys.push(flow_key(*f)));
            out.push(g);
            assert(out@.map_values(|g: WaterfallGroup| waterfall_view(g)) == views.update(views.len() - 1, waterfall_view(g)));
        } else {
            let mut ids: Vec<String> = Vec::new();
            ids.push(id);
            let mut keys: Vec<String> = Vec::new();
            keys.push(e.key);
            let g = WaterfallGroup {
                kind: WaterfallGroupKind::Sequential,
                started_at_ms: start,
                ended_at_ms: end,
                flow_ids: ids,
                endpoint_keys: keys,
            };
            assert(crate::order::string_views(g.flow_ids@) == seq![f.detail.summary.id@]);
            assert(crate::order::string_views(g.endpoint_keys@) == seq![flow_key(*f)]);
            out.push(g);
            assert(out@.map_values(|g: WaterfallGroup| waterfall_view(g)) == views.push(waterfall_view(g)));
        }
    }
    proof {
        assert(order@.take(order@.len() as int) == order@);
        assert(waterfall_from(fs, order@, out@));
    }
    out
}

/// The diagnostics of a session: repeated calls, the 20 slowest calls,
/// clusters of errors and the waterfall.
pub open spec fn is_diagnosis(fs: Seq<ComparableFlow>, d: SessionDiagnostics) -> bool {
    &&& is_duplicate_list(fs, d.duplicates@)
    &&& is_slowest_list(fs, 20, d.slowest@)
    &&& is_error_list(fs, d.errors@)
    &&& is_waterfall(fs, d.waterfall_groups@)
}

/// The diagnostics of one session.
pub fn diagnose_session(snapshot: &SessionSnapshot) -> (d: SessionDiagnostics)
    ensures
        is_diagnosis(snapshot.flows@, d),
{
    SessionDiagnostics {
        duplicates: duplicate_diagnostics(&snapshot.flows),
        slowest: slowest_diagnostics(&snapshot.flows, 20),
        errors: error_diagnostics(&snapshot.flows),
        waterfall_groups: waterfall_diagnostics(&snapshot.flows),
    }
}


// ---------------------------------------------------------------------------
// Laws
// ---------------------------------------------------------------------------

/// A flow that failed (it has an error code, whatever its status, or a
/// status of 400 or more) is among the failed flows of its cluster.
proof fn lemma_failed_flow_in_its_cluster(fs: Seq<ComparableFlow>, i: int)
    requires
        0 <= i < fs.len(),
        fs[i].detail.error_code is Some || (fs[i].detail.summary.status_code matches Some(s) && s >= 400),
    ensures
        error_flows(fs, error_key(fs[i])).len() > 0,
    decreases fs.len(),
{
    if i < fs.len() - 1 {
        assert(fs.drop_last()[i] == fs[i]);
        lemma_failed_flow_in_its_cluster(fs.drop_last(), i);
        if is_error_flow(fs.last()) && error_key(fs.last()) == error_key(fs[i]) {
            assert(error_flows(fs, error_key(fs[i])) == error_flows(fs.drop_last(), error_key(fs[i])).push(fs.last()));
        }
    }
}

/// Every flow with an error code, whatever its status, and every flow with
/// a status of 400 or more, is reported in an error cluster: the one keyed
/// by its endpoint, status and error code.
pub proof fn failed_flows_are_clustered(fs: Seq<ComparableFlow>, cs: Seq<ErrorClusterDiagnostic>, i: int)
    requires
        is_error_list(fs, cs),
        0 <= i < fs.len(),
        fs[i].detail.error_code is Some || (fs[i].detail.summary.status_code matches Some(s) && s >= 400),
    ensures
        cluster_keys(cs).contains(error_key(fs[i])),
{
    lemma_failed_flow_in_its_cluster(fs, i);
}

/// The diagnosis of a session reports, for each flow with an error code,
/// the cluster of that flow.
pub proof fn diagnosis_clusters_flows_with_error_codes(fs: Seq<ComparableFlow>, d: SessionDiagnostics, i: int)
    requires
        is_diagnosis(fs, d),
        0 <= i < fs.len(),
        fs[i].detail.error_code is Some,
    ensures
        cluster_keys(d.errors@).contains(error_key(fs[i])),
{
    failed_flows_are_clustered(fs, d.errors@, i);
}

/// Two unequal sides differ as an addition when only the candidate has a
/// value, as a removal when only the baseline has one, and as a change when
/// both have one; equal sides are the same.
pub proof fn difference_kinds_follow_the_sides(left_exists: bool, right_exists: bool, equal: bool)
    ensures
        equal ==> diff_kind(left_exists, right_exists, equal) == DifferenceKind::Same,
        !equal && !left_exists && right_exists ==> diff_kind(left_exists, right_exists, equal) == DifferenceKind::Added,
        !equal && left_exists && !right_exists ==> diff_kind(left_exists, right_exists, equal) == DifferenceKind::Removed,
        !equal && left_exists && right_exists ==> diff_kind(left_exists, right_exists, equal) == DifferenceKind::Changed,
{
}

/// In a comparison of headers or query parameters, a name only the
/// candidate uses is reported as added, and one only the baseline uses as
/// removed.
pub proof fn names_on_one_side_are_added_or_removed(left: Seq<Entry>, right: Seq<Entry>, ds: Seq<HeaderDifference>, i: int)
    requires
        is_group_difference(left, right, ds),
        0 <= i < ds.len(),
    ensures
        values_for(left, ds[i].name@).len() == 0 ==> ds[i].kind == DifferenceKind::Added,
        values_for(right, ds[i].name@).len() == 0 ==> ds[i].kind == DifferenceKind::Removed,
{
    let names = difference_names(ds);
    assert(names[i] == ds[i].name@);
    assert(names.contains(ds[i].name@));
    let l = values_for(left, ds[i].name@);
    let r = values_for(right, ds[i].name@);
    if l.len() == 0 && r.len() == 0 {
        assert(l =~= r);
    }
}

/// A document compared with itself shows no shape drift.
pub proof fn shape_compared_with_itself_is_unchanged(value: JsonValue, d: JsonShapeDifference)
    requires
        is_shape_difference(document_shape(value), document_shape(value), d),
    ensures
        d.added_paths@.len() == 0,
        d.removed_paths@.len() == 0,
        d.type_changes@.len() == 0,
{
    lemma_shape_difference_empty(document_shape(value), document_shape(value), d);
}

/// The same values on both sides give no group differences.
proof fn lemma_group_difference_of_itself(entries: Seq<Entry>, ds: Seq<HeaderDifference>)
    requires
        is_group_difference(entries, entries, ds),
    ensures
        ds.len() == 0,
{
    if ds.len() > 0 {
        assert(difference_names(ds).contains(difference_names(ds)[0]));
    }
}

/// Two lists of the flows of one endpoint, each in start order, are the
/// same list.
proof fn lemma_group_unique(fs: Seq<ComparableFlow>, key: Seq<char>, a: Seq<usize>, b: Seq<usize>)
    requires
        is_group(fs, key, a),
        is_group(fs, key, b),
    ensures
        a == b,
{
    assert forall|v: usize| #![trigger a.contains(v)] #![trigger b.contains(v)] a.contains(v) <==> b.contains(v) by {}
    lemma_sorted_indices_unique(fs, a, b);
}

/// Index lists in start order with the same members are the same list.
proof fn lemma_sorted_indices_unique(fs: Seq<ComparableFlow>, a: Seq<usize>, b: Seq<usize>)
    requires
        forall|x: int, y: int| 0 <= x < y < a.len() ==> starts_before(fs, #[trigger] a[x] as int, #[trigger] a[y] as int),
        forall|x: int, y: int| 0 <= x < y < b.len() ==> starts_before(fs, #[trigger] b[x] as int, #[trigger] b[y] as int),
        forall|v: usize| #![trigger a.contains(v)] #![trigger b.contains(v)] a.contains(v) <==> b.contains(v),
    ensures
        a == b,
    decreases a.len(),
{
    if a.len() == 0 {
        if b.len() > 0 {
            assert(b.contains(b[0]));
            assert(a.contains(b[0]));
        }
        assert(a =~= b);
    } else if b.len() == 0 {
        assert(a.contains(a[0]));
        assert(b.contains(a[0]));
    } else {
        assert(a.contains(a[0]));
        assert(b.contains(b[0]));
        assert(b.contains(a[0]));
        assert(a.contains(b[0]));
        if a[0] != b[0] {
            let ia = choose|i: int| 0 <= i < a.len() && a[i] == b[0];
            let ib = choose|i: int| 0 <= i < b.len() && b[i] == a[0];
            assert(starts_before(fs, a[0] as int, a[ia] as int));
            assert(starts_before(fs, b[0] as int, b[ib] as int));
        }
        assert(a[0] == b[0]);
        let ta = a.drop_first();
        let tb = b.drop_first();
        assert forall|x: usize| #![trigger ta.contains(x)] #![trigger tb.contains(x)] ta.contains(x) <==> tb.contains(x) by {
            if ta.contains(x) {
                let k = choose|k: int| 0 <= k < ta.len() && ta[k] == x;
                assert(a[k + 1] == x);
                assert(starts_before(fs, a[0] as int, a[k + 1] as int));
                assert(a.contains(x));
                assert(b.contains(x));
                let m = choose|m: int| 0 <= m < b.len() && b[m] == x;
                assert(m != 0);
                assert(tb[m - 1] == x);
            }
            if tb.contains(x) {
                let k = choose|k: int| 0 <= k < tb.len() && tb[k] == x;
                assert(b[k + 1] == x);
                assert(starts_before(fs, b[0] as int, b[k + 1] as int));
                assert(b.contains(x));
                assert(a.contains(x));
                let m = choose|m: int| 0 <= m < a.len() && a[m] == x;
                assert(m != 0);
                assert(ta[m - 1] == x);
            }
        }
        lemma_sorted_indices_unique(fs, ta, tb);
        assert(a =~= seq![a[0]] + ta);
        assert(b =~= seq![b[0]] + tb);
    }
}

/// A call compared with itself is matched and unchanged.
proof fn lemma_call_with_itself(key: Seq<char>, o: usize, f: ComparableFlow, c: CallComparison)
    requires
        is_call_comparison(key, o, Some(f), Some(f), c),
    ensures
        c.presence == Presence::Both,
        !c.changed,
        !status_changed(c),
        !response_body_changed(c),
        !shape_drifted(c),
        !timing_regressed(c),
{
    let rq = c.request->0;
    let rs = c.response->0;
    lemma_group_difference_of_itself(query_entries(request_query(f)), rq.query@.map_values(|q: QueryDifference| as_group(q)));
    lemma_group_difference_of_itself(header_entries(request_headers(f)), rq.headers@);
    lemma_group_difference_of_itself(header_entries(response_headers(f)), rs.headers@);
    assert(rq.query@.map_values(|q: QueryDifference| as_group(q)).len() == rq.query@.len());
}

/// Every call of the endpoints is a call of one of them.
proof fn lemma_all_calls_member(es: Seq<EndpointComparison>, x: int)
    requires
        0 <= x < all_calls(es).len(),
    ensures
        exists|i: int, j: int| 0 <= i < es.len() && 0 <= j < es[i].calls@.len() && #[trigger] es[i].calls@[j] == all_calls(es)[x],
    decreases es.len(),
{
    let init = es.drop_last();
    if x < all_calls(init).len() {
        lemma_all_calls_member(init, x);
        let (i, j) = choose|i: int, j: int| 0 <= i < init.len() && 0 <= j < init[i].calls@.len() && #[trigger] init[i].calls@[j] == all_calls(init)[x];
        assert(es[i] == init[i]);
        assert(es[i].calls@[j] == all_calls(es)[x]);
    } else {
        let j = x - all_calls(init).len();
        assert(es[es.len() - 1].calls@[j] == all_calls(es)[x]);
    }
}

proof fn lemma_count_none(calls: Seq<CallComparison>, pred: spec_fn(CallComparison) -> bool)
    requires
        forall|x: int| 0 <= x < calls.len() ==> !pred(#[trigger] calls[x]),
    ensures
        count_where(calls, pred) == 0,
    decreases calls.len(),
{
    if calls.len() > 0 {
        lemma_count_none(calls.drop_last(), pred);
    }
}

/// A session compared with itself: every call is matched and unchanged, and
/// the summary counts no unmatched call, change, drift or regression.
pub proof fn comparing_a_session_with_itself(baseline: SessionSnapshot, candidate: SessionSnapshot, r: SessionComparison)
    requires
        baseline.flows@ == candidate.flows@,
        is_endpoint_list(baseline.flows@, candidate.flows@, r.endpoints@),
        is_summary_of(r.endpoints@, r.summary),
    ensures
        forall|i: int, j: int| 0 <= i < r.endpoints@.len() && 0 <= j < r.endpoints@[i].calls@.len() ==> {
            let c = #[trigger] r.endpoints@[i].calls@[j];
            c.presence == Presence::Both && !c.changed
        },
        r.summary.baseline_only_calls == 0,
        r.summary.candidate_only_calls == 0,
        r.summary.changed_calls == 0,
        r.summary.status_changes == 0,
        r.summary.body_changes == 0,
        r.summary.json_shape_drifts == 0,
        r.summary.timing_regressions == 0,
{
    let fs = baseline.flows@;
    let es = r.endpoints@;
    assert forall|i: int, j: int| 0 <= i < es.len() && 0 <= j < es[i].calls@.len() implies {
        let c = #[trigger] es[i].calls@[j];
        &&& c.presence == Presence::Both
        &&& !c.changed
        &&& !status_changed(c)
        &&& !response_body_changed(c)
        &&& !shape_drifted(c)
        &&& !timing_regressed(c)
    } by {
        assert(endpoint_of_groups(fs, fs, es[i]));
        let (bg, cg) = choose|bg: Seq<usize>, cg: Seq<usize>| #[trigger] endpoint_from_groups(fs, fs, es[i].endpoint_key@, bg, cg, es[i]);
        lemma_group_unique(fs, es[i].endpoint_key@, bg, cg);
        assert(call_at(fs, bg, j) == call_at(fs, cg, j));
        let larger_len = larger(bg.len(), cg.len());
        assert(j < bg.len());
        lemma_call_with_itself(es[i].endpoint_key@, j as usize, fs[bg[j] as int], es[i].calls@[j]);
    }
    let calls = all_calls(es);
    assert forall|x: int| 0 <= x < calls.len() implies {
        let c = #[trigger] calls[x];
        &&& c.presence == Presence::Both
        &&& !c.changed
        &&& !status_changed(c)
        &&& !response_body_changed(c)
        &&& !shape_drifted(c)
        &&& !timing_regressed(c)
    } by {
        lemma_all_calls_member(es, x);
        let (i, j) = choose|i: int, j: int| 0 <= i < es.len() && 0 <= j < es[i].calls@.len() && #[trigger] es[i].calls@[j] == calls[x];
        assert(es[i].calls@[j] == calls[x]);
    }
    lemma_count_none(calls, |c: CallComparison| c.presence == Presence::BaselineOnly);
    lemma_count_none(calls, |c: CallComparison| c.presence == Presence::CandidateOnly);
    lemma_count_none(calls, |c: CallComparison| c.changed);
    lemma_count_none(calls, |c: CallComparison| status_changed(c));
    lemma_count_none(calls, |c: CallComparison| response_body_changed(c));
    lemma_count_none(calls, |c: CallComparison| shape_drifted(c));
    lemma_count_none(calls, |c: CallComparison| timing_regressed(c));
}

} // verus!
