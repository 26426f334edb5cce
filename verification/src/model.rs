//! The captured-traffic data model shared by every part of the studio.
use vstd::prelude::*;

use crate::text::owned;

verus! {

pub const SCHEMA_VERSION: u16 = 1;

#[derive(Debug, Clone, Copy, PartialEq, Eq, Structural)]
pub enum FlowSource {
    Proxy,
    Replay,
    Mock,
    Sdk,
    Fixture,
}

#[derive(Debug, Clone, Copy, PartialEq, Eq, Structural)]
pub enum SessionStatus {
    Active,
    Completed,
    Interrupted,
}

#[derive(Debug, Clone, Copy, PartialEq, Eq, Structural)]
pub enum DevicePlatform {
    Ios,
    Android,
}

#[derive(Debug, Clone, Copy, PartialEq, Eq, Structural)]
pub struct DeviceCapabilities {
    pub can_install_ca: bool,
    pub can_auto_route_proxy: bool,
    pub can_target_process: bool,
}

#[derive(Debug, Clone, PartialEq, Eq)]
pub struct Device {
    pub schema_version: u16,
    pub id: String,
    pub platform: DevicePlatform,
    pub name: String,
    pub os_version: Option<String>,
    pub state: String,
    pub capabilities: DeviceCapabilities,
}

#[derive(Debug, Clone, PartialEq, Eq)]
pub struct CaptureSession {
    pub schema_version: u16,
    pub id: String,
    pub name: String,
    pub status: SessionStatus,
    pub started_at: String,
    pub ended_at: Option<String>,
    pub device_id: Option<String>,
    pub app_id: Option<String>,
    pub connection_strategy: Option<String>,
    pub capture_engine: Option<String>,
    pub notes: Option<String>,
}

#[derive(Debug, Clone, PartialEq, Eq)]
pub struct HeaderValue {
    pub name: String,
    pub value: String,
    pub sensitive: bool,
}

#[derive(Debug, Clone, PartialEq, Eq)]
pub struct BodyRef {
    pub sha256: String,
    pub byte_size: u64,
    pub content_type: Option<String>,
    pub encoding: Option<String>,
    pub is_binary: bool,
    pub is_truncated: bool,
}

#[derive(Debug, Clone, Copy, PartialEq, Eq, Structural)]
pub struct Timing {
    pub dns_ms: Option<u64>,
    pub connect_ms: Option<u64>,
    pub tls_ms: Option<u64>,
    pub request_ms: Option<u64>,
    pub server_ms: Option<u64>,
    pub download_ms: Option<u64>,
    pub total_ms: Option<u64>,
}

impl Default for Timing {
    fn default() -> (t: Self)
        ensures
            t == (Timing {
                dns_ms: None,
                connect_ms: None,
                tls_ms: None,
                request_ms: None,
                server_ms: None,
                download_ms: None,
                total_ms: None,
            }),
    {
        Timing {
            dns_ms: None,
            connect_ms: None,
            tls_ms: None,
            request_ms: None,
            server_ms: None,
            download_ms: None,
            total_ms: None,
        }
    }
}

#[derive(Debug, Clone, PartialEq, Eq)]
pub struct RequestDetail {
    pub method: String,
    pub url: String,
    pub scheme: String,
    pub host: String,
    pub port: Option<u16>,
    pub path: String,
    pub query: Option<String>,
    pub headers: Vec<HeaderValue>,
    pub body: Option<BodyRef>,
}

#[derive(Debug, Clone, PartialEq, Eq)]
pub struct ResponseDetail {
    pub status_code: u16,
    pub reason: Option<String>,
    pub headers: Vec<HeaderValue>,
    pub body: Option<BodyRef>,
}

#[derive(Debug, Clone, PartialEq, Eq)]
pub struct FlowSummary {
    pub schema_version: u16,
    pub id: String,
    pub session_id: Option<String>,
    pub source: FlowSource,
    pub method: String,
    pub host: String,
    pub path: String,
    pub status_code: Option<u16>,
    pub duration_ms: Option<u64>,
    pub response_size_bytes: Option<u64>,
    pub started_at: String,
}

impl FlowSummary {
    /// A completed fixture flow with the given request line and response figures.
    pub fn fixture(
        id: &str,
        method: &str,
        host: &str,
        path: &str,
        status_code: u16,
        duration_ms: u64,
        response_size_bytes: u64,
        started_at: &str,
    ) -> (flow: Self)
        ensures
            flow.schema_version == SCHEMA_VERSION,
            flow.id@ == id@,
            flow.session_id is None,
            flow.source == FlowSource::Fixture,
            flow.method@ == method@,
            flow.host@ == host@,
            flow.path@ == path@,
            flow.status_code == Some(status_code),
            flow.duration_ms == Some(duration_ms),
            flow.response_size_bytes == Some(response_size_bytes),
            flow.started_at@ == started_at@,
    {
        FlowSummary {
            schema_version: SCHEMA_VERSION,
            id: owned(id),
            session_id: None,
            source: FlowSource::Fixture,
            method: owned(method),
            host: owned(host),
            path: owned(path),
            status_code: Some(status_code),
            duration_ms: Some(duration_ms),
            response_size_bytes: Some(response_size_bytes),
            started_at: owned(started_at),
        }
    }
}

#[derive(Debug, Clone, PartialEq, Eq)]
pub struct FlowDetail {
    pub summary: FlowSummary,
    pub request: Option<RequestDetail>,
    pub response: Option<ResponseDetail>,
    pub timing: Timing,
    pub error_code: Option<String>,
    pub error_message: Option<String>,
}

#[derive(Debug, Clone, PartialEq, Eq)]
pub struct ConnectionDiagnostic {
    pub code: String,
    pub title: String,
    pub message: String,
    pub recoverable: bool,
    pub suggested_action: Option<String>,
}

#[derive(Debug, Clone, PartialEq, Eq)]
pub struct AppError {
    pub code: String,
    pub message: String,
    pub recoverable: bool,
}

impl AppError {
    pub fn new(code: &str, message: &str, recoverable: bool) -> (e: Self)
        ensures
            e.code@ == code@,
            e.message@ == message@,
            e.recoverable == recoverable,
    {
        AppError { code: owned(code), message: owned(message), recoverable }
    }

    /// A recoverable storage failure.
    pub fn storage(message: &str) -> (e: Self)
        ensures
            e.code@ == "storage_failure"@,
            e.message@ == message@,
            e.recoverable,
    {
        Self::new("storage_failure", message, true)
    }

    /// A start-up failure that cannot be recovered from.
    pub fn initialization(message: &str) -> (e: Self)
        ensures
            e.code@ == "initialization_failed"@,
            e.message@ == message@,
            !e.recoverable,
    {
        Self::new("initialization_failed", message, false)
    }
}

// ---------------------------------------------------------------------------
// Stored names of the enumerations
// ---------------------------------------------------------------------------

/// The name under which a flow source is stored.
pub open spec fn flow_source_name(source: FlowSource) -> Seq<char> {
    match source {
        FlowSource::Proxy => "proxy"@,
        FlowSource::Replay => "replay"@,
        FlowSource::Mock => "mock"@,
        FlowSource::Sdk => "sdk"@,
        FlowSource::Fixture => "fixture"@,
    }
}

/// The flow source a stored name denotes; unknown names read as fixtures.
pub open spec fn flow_source_of_name(name: Seq<char>) -> FlowSource {
    if name == "proxy"@ {
        FlowSource::Proxy
    } else if name == "replay"@ {
        FlowSource::Replay
    } else if name == "mock"@ {
        FlowSource::Mock
    } else if name == "sdk"@ {
        FlowSource::Sdk
    } else {
        FlowSource::Fixture
    }
}

/// The name under which a session status is stored.
pub open spec fn session_status_name(status: SessionStatus) -> Seq<char> {
    match status {
        SessionStatus::Active => "active"@,
        SessionStatus::Completed => "completed"@,
        SessionStatus::Interrupted => "interrupted"@,
    }
}

/// The status a stored name denotes; unknown names read as active.
pub open spec fn session_status_of_name(name: Seq<char>) -> SessionStatus {
    if name == "completed"@ {
        SessionStatus::Completed
    } else if name == "interrupted"@ {
        SessionStatus::Interrupted
    } else {
        SessionStatus::Active
    }
}

pub fn flow_source_to_str(source: &FlowSource) -> (r: &'static str)
    ensures
        r@ == flow_source_name(*source),
{
    match source {
        FlowSource::Proxy => "proxy",
        FlowSource::Replay => "replay",
        FlowSource::Mock => "mock",
        FlowSource::Sdk => "sdk",
        FlowSource::Fixture => "fixture",
    }
}

pub fn flow_source_from_str(value: &str) -> (r: FlowSource)
    ensures
        r == flow_source_of_name(value@),
{
    if crate::text::str_eq(value, "proxy") {
        FlowSource::Proxy
    } else if crate::text::str_eq(value, "replay") {
        FlowSource::Replay
    } else if crate::text::str_eq(value, "mock") {
        FlowSource::Mock
    } else if crate::text::str_eq(value, "sdk") {
        FlowSource::Sdk
    } else {
        FlowSource::Fixture
    }
}

pub fn session_status_to_str(status: &SessionStatus) -> (r: &'static str)
    ensures
        r@ == session_status_name(*status),
{
    match status {
        SessionStatus::Active => "active",
        SessionStatus::Completed => "completed",
        SessionStatus::Interrupted => "interrupted",
    }
}

/// The label under which a session status is shown and stored.
pub fn session_status_label(status: &SessionStatus) -> (r: &'static str)
    ensures
        r@ == session_status_name(*status),
{
    session_status_to_str(status)
}

pub fn session_status_from_str(value: &str) -> (r: SessionStatus)
    ensures
        r == session_status_of_name(value@),
{
    if crate::text::str_eq(value, "completed") {
        SessionStatus::Completed
    } else if crate::text::str_eq(value, "interrupted") {
        SessionStatus::Interrupted
    } else {
        SessionStatus::Active
    }
}

/// Reading back the stored name of a flow source gives the same source.
pub proof fn flow_source_name_round_trip(source: FlowSource)
    ensures
        flow_source_of_name(flow_source_name(source)) == source,
{
    reveal_strlit("proxy");
    reveal_strlit("replay");
    reveal_strlit("mock");
    reveal_strlit("sdk");
    reveal_strlit("fixture");
    assert("proxy"@.len() == 5);
    assert("replay"@.len() == 6);
    assert("mock"@.len() == 4);
    assert("sdk"@.len() == 3);
    assert("fixture"@.len() == 7);
}

/// Reading back the stored name of a session status gives the same status.
pub proof fn session_status_name_round_trip(status: SessionStatus)
    ensures
        session_status_of_name(session_status_name(status)) == status,
{
    reveal_strlit("active");
    reveal_strlit("completed");
    reveal_strlit("interrupted");
    assert("active"@.len() == 6);
    assert("completed"@.len() == 9);
    assert("interrupted"@.len() == 11);
}


// ---------------------------------------------------------------------------
// Copies
// ---------------------------------------------------------------------------

pub fn copy_session(s: &CaptureSession) -> (r: CaptureSession)
    ensures
        r == *s,
{
    CaptureSession {
        schema_version: s.schema_version,
        id: crate::text::copy_string(&s.id),
        name: crate::text::copy_string(&s.name),
        status: s.status,
        started_at: crate::text::copy_string(&s.started_at),
        ended_at: crate::text::copy_opt_string(&s.ended_at),
        device_id: crate::text::copy_opt_string(&s.device_id),
        app_id: crate::text::copy_opt_string(&s.app_id),
        connection_strategy: crate::text::copy_opt_string(&s.connection_strategy),
        capture_engine: crate::text::copy_opt_string(&s.capture_engine),
        notes: crate::text::copy_opt_string(&s.notes),
    }
}

pub fn copy_summary(s: &FlowSummary) -> (r: FlowSummary)
    ensures
        r == *s,
{
    FlowSummary {
        schema_version: s.schema_version,
        id: crate::text::copy_string(&s.id),
        session_id: crate::text::copy_opt_string(&s.session_id),
        source: s.source,
        method: crate::text::copy_string(&s.method),
        host: crate::text::copy_string(&s.host),
        path: crate::text::copy_string(&s.path),
        status_code: s.status_code,
        duration_ms: s.duration_ms,
        response_size_bytes: s.response_size_bytes,
        started_at: crate::text::copy_string(&s.started_at),
    }
}

pub fn copy_headers(hs: &Vec<HeaderValue>) -> (r: Vec<HeaderValue>)
    ensures
        r@ == hs@,
{
    let mut r: Vec<HeaderValue> = Vec::new();
    for i in 0..hs.len()
        invariant
            r@ == hs@.take(i as int),
    {
        let h = &hs[i];
        r.push(HeaderValue { name: crate::text::copy_string(&h.name), value: crate::text::copy_string(&h.value), sensitive: h.sensitive });
        assert(hs@.take(i + 1) == hs@.take(i as int).push(hs@[i as int]));
    }
    assert(hs@.take(hs@.len() as int) == hs@);
    r
}

pub fn copy_body_ref(b: &Option<BodyRef>) -> (r: Option<BodyRef>)
    ensures
        r == *b,
{
    match b {
        Some(b) => Some(
            BodyRef {
                sha256: crate::text::copy_string(&b.sha256),
                byte_size: b.byte_size,
                content_type: crate::text::copy_opt_string(&b.content_type),
                encoding: crate::text::copy_opt_string(&b.encoding),
                is_binary: b.is_binary,
                is_truncated: b.is_truncated,
            },
        ),
        None => None,
    }
}

pub fn copy_detail(d: &FlowDetail) -> (r: FlowDetail)
    ensures
        crate::redaction::detail_redacted(*d, r, |o: Seq<HeaderValue>, n: Seq<HeaderValue>| n == o),
{
    let request = match &d.request {
        Some(q) => Some(
            RequestDetail {
                method: crate::text::copy_string(&q.method),
                url: crate::text::copy_string(&q.url),
                scheme: crate::text::copy_string(&q.scheme),
                host: crate::text::copy_string(&q.host),
                port: q.port,
                path: crate::text::copy_string(&q.path),
                query: crate::text::copy_opt_string(&q.query),
                headers: copy_headers(&q.headers),
                body: copy_body_ref(&q.body),
            },
        ),
        None => None,
    };
    let response = match &d.response {
        Some(p) => Some(
            ResponseDetail {
                status_code: p.status_code,
                reason: crate::text::copy_opt_string(&p.reason),
                headers: copy_headers(&p.headers),
                body: copy_body_ref(&p.body),
            },
        ),
        None => None,
    };
    FlowDetail {
        summary: copy_summary(&d.summary),
        request,
        response,
        timing: d.timing,
        error_code: crate::text::copy_opt_string(&d.error_code),
        error_message: crate::text::copy_opt_string(&d.error_message),
    }
}

} // verus!
