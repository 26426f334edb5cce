//! The capture engine's vocabulary, the choice of its executable, and the
//! connection doctor's report.
use vstd::prelude::*;

use crate::model::{FlowSource, FlowSummary, SCHEMA_VERSION};
use crate::text::{copy_string, owned};

verus! {

#[derive(Debug, Clone, PartialEq, Eq)]
pub struct CaptureConfig {
    pub session_id: String,
    pub listen_host: String,
    pub listen_port: u16,
}

#[derive(Debug, Clone, PartialEq, Eq)]
pub struct CaptureCapabilities {
    pub engine_name: String,
    pub engine_version: Option<String>,
    pub supports_https: bool,
    pub supports_http2: bool,
    pub supports_websocket: bool,
}

#[derive(Debug, Clone, PartialEq, Eq)]
pub struct CaptureHandle {
    pub id: String,
    pub session_id: String,
    pub listen_host: String,
    pub listen_port: u16,
}

#[derive(Debug, Clone, Copy, PartialEq, Eq, Structural)]
pub enum CaptureLifecycleState {
    Idle,
    Preparing,
    Starting,
    Ready,
    Stopping,
    Failed,
}

/// What the capture engine reports while it runs.
#[derive(Debug, Clone, PartialEq, Eq)]
pub enum CaptureEvent {
    LifecycleChanged(CaptureLifecycleState),
    EngineReady(CaptureCapabilities),
    FlowStarted(FlowSummary),
    FlowUpdated(FlowSummary),
    FlowCompleted(FlowSummary),
    FlowFailed { flow_id: String, code: String, message: String },
    EngineFailed { code: String, message: String, recoverable: bool },
    EngineStopped,
}

#[derive(Debug, Clone, PartialEq, Eq)]
pub struct CaptureError {
    pub code: String,
    pub message: String,
    pub recoverable: bool,
}

impl CaptureError {
    pub fn new(code: &str, message: &str, recoverable: bool) -> (e: Self)
        ensures
            e.code@ == code@,
            e.message@ == message@,
            e.recoverable == recoverable,
    {
        CaptureError { code: owned(code), message: owned(message), recoverable }
    }
}

// ---------------------------------------------------------------------------
// Events of the capture bridge
// ---------------------------------------------------------------------------

/// The prefix of the lines through which the capture addon reports flows.
pub const EVENT_PREFIX: &'static str = "MAS_EVENT ";

/// What the capture addon reports about a flow.
#[derive(Debug, Clone, PartialEq, Eq)]
pub enum BridgeEvent {
    FlowCompleted {
        id: String,
        method: String,
        host: String,
        path: String,
        status_code: u16,
        duration_ms: Option<u64>,
        response_size_bytes: Option<u64>,
        started_at: String,
    },
    FlowFailed { id: String, code: String, message: String },
}

/// The report a line of the addon's output carries after the prefix, if
/// it is a report line.
pub fn bridge_payload(line: &str) -> (r: Option<String>)
    ensures
        crate::text::has_prefix(line@, EVENT_PREFIX@) ==> (r matches Some(p) && p@ == line@.skip(10)),
        !crate::text::has_prefix(line@, EVENT_PREFIX@) ==> r is None,
{
    let v = crate::text::chars_of(line);
    let prefix = crate::text::chars_of(EVENT_PREFIX);
    proof {
        reveal_strlit("MAS_EVENT ");
    }
    if crate::text::starts_with_chars(&v, &prefix) {
        Some(crate::text::string_of(&crate::text::slice_chars(&v, 10, v.len())))
    } else {
        None
    }
}

/// The event a report of the addon publishes: a completed flow is a proxy
/// flow of the capturing session.
pub fn publish_bridge_event(session_id: &str, event: BridgeEvent) -> (r: CaptureEvent)
    ensures
        match event {
            BridgeEvent::FlowCompleted { id, method, host, path, status_code, duration_ms, response_size_bytes, started_at } => (r
                is FlowCompleted && r == CaptureEvent::FlowCompleted(
                FlowSummary {
                    schema_version: SCHEMA_VERSION,
                    id,
                    session_id: r->FlowCompleted_0.session_id,
                    source: FlowSource::Proxy,
                    method,
                    host,
                    path,
                    status_code: Some(status_code),
                    duration_ms,
                    response_size_bytes,
                    started_at,
                },
            ) && (r->FlowCompleted_0.session_id matches Some(s) && s@ == session_id@)),
            BridgeEvent::FlowFailed { id, code, message } => r == (CaptureEvent::FlowFailed { flow_id: id, code, message }),
        },
{
    match event {
        BridgeEvent::FlowCompleted { id, method, host, path, status_code, duration_ms, response_size_bytes, started_at } => {
            CaptureEvent::FlowCompleted(
                FlowSummary {
                    schema_version: SCHEMA_VERSION,
                    id,
                    session_id: Some(owned(session_id)),
                    source: FlowSource::Proxy,
                    method,
                    host,
                    path,
                    status_code: Some(status_code),
                    duration_ms,
                    response_size_bytes,
                    started_at,
                },
            )
        },
        BridgeEvent::FlowFailed { id, code, message } => CaptureEvent::FlowFailed { flow_id: id, code, message },
    }
}

/// The event published for a report that could not be read, given the
/// reader's error.
pub fn bridge_parse_failure(message: String) -> (r: CaptureEvent)
    ensures
        r matches CaptureEvent::EngineFailed { code, message: m, recoverable } && code@ == "mitm_bridge_parse_failed"@
            && m == message && recoverable,
{
    CaptureEvent::EngineFailed { code: owned("mitm_bridge_parse_failed"), message, recoverable: true }
}

// ---------------------------------------------------------------------------
// The capture executable
// ---------------------------------------------------------------------------

pub const CAPTURE_EXECUTABLE_PREFERENCE: &'static str = "capture_executable";

/// What is shown of the configured capture executable.
#[derive(Debug, Clone, PartialEq, Eq)]
pub struct CaptureExecutableSetting {
    pub configured: Option<String>,
    pub effective_after_restart: String,
    pub uses_auto_discovery: bool,
}

/// A configured executable counts only when it is not blank.
pub open spec fn configured_value(stored: Option<Seq<char>>) -> Option<Seq<char>> {
    match stored {
        Some(v) => if crate::text::trim(v).len() == 0 {
            None
        } else {
            Some(v)
        },
        None => None,
    }
}

fn non_blank(stored: Option<String>) -> (r: Option<String>)
    ensures
        crate::compare::opt_view(r) == configured_value(crate::compare::opt_view(stored)),
{
    match stored {
        Some(v) => if crate::text::is_blank(v.as_str()) {
            None
        } else {
            Some(v)
        },
        None => None,
    }
}

/// The setting shown for a stored preference: the configured executable,
/// or discovery of `mitmdump` on the PATH.
pub fn capture_executable_setting(stored: Option<String>) -> (s: CaptureExecutableSetting)
    ensures
        crate::compare::opt_view(s.configured) == configured_value(crate::compare::opt_view(stored)),
        s.uses_auto_discovery == (s.configured is None),
        s.effective_after_restart@ == (match s.configured {
            Some(c) => c@,
            None => "mitmdump (PATH auto-discovery)"@,
        }),
{
    let configured = non_blank(stored);
    let effective_after_restart = match &configured {
        Some(c) => copy_string(c),
        None => owned("mitmdump (PATH auto-discovery)"),
    };
    CaptureExecutableSetting { uses_auto_discovery: configured.is_none(), configured, effective_after_restart }
}

/// Setting the executable: what is stored (the trimmed path, or nothing)
/// and the setting shown afterwards.
pub fn set_capture_executable(executable: Option<String>) -> (r: (String, CaptureExecutableSetting))
    ensures
        crate::compare::opt_view(r.1.configured) == (match executable {
            Some(v) => if crate::text::trim(v@).len() == 0 {
                None
            } else {
                Some(crate::text::trim(v@))
            },
            None => None,
        }),
        r.0@ == (match r.1.configured {
            Some(c) => c@,
            None => Seq::<char>::empty(),
        }),
        r.1.uses_auto_discovery == (r.1.configured is None),
        r.1.effective_after_restart@ == (match r.1.configured {
            Some(c) => c@,
            None => "mitmdump (PATH auto-discovery)"@,
        }),
{
    let normalized = match executable {
        Some(v) => {
            let t = crate::text::trimmed(v.as_str());
            if crate::text::chars_of(t.as_str()).len() == 0 {
                None
            } else {
                Some(t)
            }
        },
        None => None,
    };
    let stored = match &normalized {
        Some(v) => copy_string(v),
        None => String::new(),
    };
    let effective_after_restart = match &normalized {
        Some(c) => copy_string(c),
        None => owned("mitmdump (PATH auto-discovery)"),
    };
    (stored, CaptureExecutableSetting { uses_auto_discovery: normalized.is_none(), configured: normalized, effective_after_restart })
}

/// The executable a capture starts: the configured one, else `mitmdump`;
/// a failure to read the preference is passed on.
pub fn configured_capture_executable(preference: Result<Option<String>, String>) -> (r: Result<String, String>)
    ensures
        preference matches Err(e) ==> r == Err::<String, String>(e),
        preference matches Ok(stored) ==> (r matches Ok(x) && x@ == (match configured_value(crate::compare::opt_view(stored)) {
            Some(c) => c,
            None => "mitmdump"@,
        })),
{
    match preference {
        Err(e) => Err(e),
        Ok(stored) => match non_blank(stored) {
            Some(c) => Ok(c),
            None => Ok(owned("mitmdump")),
        },
    }
}

// ---------------------------------------------------------------------------
// The connection doctor
// ---------------------------------------------------------------------------

#[derive(Debug, Clone, Copy, PartialEq, Eq, Structural)]
pub enum DoctorStatus {
    Pass,
    Warning,
    Fail,
}

#[derive(Debug, Clone, PartialEq, Eq)]
pub struct DoctorCheck {
    pub id: String,
    pub title: String,
    pub status: DoctorStatus,
    pub detail: String,
    pub action: Option<String>,
}

#[derive(Debug, Clone, PartialEq, Eq)]
pub struct ConnectionDoctorReport {
    pub checks: Vec<DoctorCheck>,
    pub capture_executable: Option<String>,
    pub booted_ios_count: usize,
    pub android_emulator_count: usize,
    pub pending_rollback: bool,
}

fn check(id: &str, title: &str, status: DoctorStatus, detail: &str, action: Option<&str>) -> (c: DoctorCheck)
    ensures
        c.id@ == id@,
        c.title@ == title@,
        c.status == status,
        c.detail@ == detail@,
        crate::compare::opt_view(c.action) == (match action {
            Some(a) => Some(a@),
            None => None,
        }),
{
    DoctorCheck {
        id: owned(id),
        title: owned(title),
        status,
        detail: owned(detail),
        action: match action {
            Some(a) => Some(owned(a)),
            None => None,
        },
    }
}

/// A check with exactly these fields.
pub open spec fn check_is(
    c: DoctorCheck,
    id: Seq<char>,
    title: Seq<char>,
    status: DoctorStatus,
    detail: Seq<char>,
    action: Option<Seq<char>>,
) -> bool {
    &&& c.id@ == id
    &&& c.title@ == title
    &&& c.status == status
    &&& c.detail@ == detail
    &&& crate::compare::opt_view(c.action) == action
}

/// The check of a device tool: missing, failing (with its message), or
/// available with the number of runtimes it listed.
pub open spec fn tool_check_holds(
    listed: Option<Result<nat, Seq<char>>>,
    found_prefix: Seq<char>,
    found_suffix: Seq<char>,
    missing_detail: Seq<char>,
    missing_action: Seq<char>,
    failed_action: Seq<char>,
    c: DoctorCheck,
) -> bool {
    match listed {
        None => c.status == DoctorStatus::Warning && c.detail@ == missing_detail && crate::compare::opt_view(c.action)
            == Some(missing_action),
        Some(Err(message)) => c.status == DoctorStatus::Warning && c.detail@ == message && crate::compare::opt_view(
            c.action,
        ) == Some(failed_action),
        Some(Ok(n)) => c.status == DoctorStatus::Pass && c.detail@ == found_prefix + crate::text::decimal(n)
            + found_suffix && c.action is None,
    }
}

fn tool_check(
    id: &str,
    title: &str,
    listed: &Option<Result<Vec<crate::model::Device>, String>>,
    found_prefix: &str,
    found_suffix: &str,
    missing_detail: &str,
    missing_action: &str,
    failed_action: &str,
) -> (c: DoctorCheck)
    ensures
        c.id@ == id@,
        c.title@ == title@,
        tool_check_holds(
            listed_count(*listed),
            found_prefix@,
            found_suffix@,
            missing_detail@,
            missing_action@,
            failed_action@,
            c,
        ),
{
    match listed {
        None => check(id, title, DoctorStatus::Warning, missing_detail, Some(missing_action)),
        Some(Err(message)) => check(id, title, DoctorStatus::Warning, message.as_str(), Some(failed_action)),
        Some(Ok(devices)) => {
            let mut detail = crate::text::chars_of(found_prefix);
            crate::text::extend_str(&mut detail, crate::text::decimal_string(devices.len() as u64).as_str());
            crate::text::extend_str(&mut detail, found_suffix);
            let d = crate::text::string_of(&detail);
            check(id, title, DoctorStatus::Pass, d.as_str(), None)
        },
    }
}

/// How many devices a tool listed, or why it listed none.
pub open spec fn listed_count(listed: Option<Result<Vec<crate::model::Device>, String>>) -> Option<Result<nat, Seq<char>>> {
    match listed {
        None => None,
        Some(Err(m)) => Some(Err(m@)),
        Some(Ok(d)) => Some(Ok(d@.len())),
    }
}

/// How many listed devices are in the given state (compared ignoring case).
pub open spec fn count_in_state(devices: Seq<crate::model::Device>, state: Seq<char>) -> nat
    decreases devices.len(),
{
    if devices.len() == 0 {
        0
    } else {
        count_in_state(devices.drop_last(), state) + if crate::text::seq_lower(devices.last().state@)
            == crate::text::seq_lower(state) {
            1nat
        } else {
            0nat
        }
    }
}

fn count_state(listed: &Option<Result<Vec<crate::model::Device>, String>>, state: &str) -> (n: usize)
    ensures
        n == (match *listed {
            Some(Ok(d)) => count_in_state(d@, state@),
            _ => 0,
        }),
{
    match listed {
        Some(Ok(devices)) => {
            let mut n: usize = 0;
            for i in 0..devices.len()
                invariant
                    n == count_in_state(devices@.take(i as int), state@),
                    n <= i,
            {
                assert(devices@.take(i + 1).drop_last() == devices@.take(i as int));
                if crate::text::eq_ignore_case(devices[i].state.as_str(), state) {
                    n = n + 1;
                }
            }
            assert(devices@.take(devices@.len() as int) == devices@);
            n
        },
        _ => 0,
    }
}

/// A previous connection left changes to undo: its journal is on disk and
/// no connection is active (an active one owns its journal).
pub fn pending_rollback(connection_active: bool, journal_exists: bool) -> (r: bool)
    ensures
        r == (!connection_active && journal_exists),
{
    !connection_active && journal_exists
}

/// What the doctor learned: the device tools (`None` where a tool is not
/// on the PATH), the capture engine (its name and version, or why it
/// failed), the capture certificate (where it is, if it exists), whether a
/// connection left recovery state, and whether the secure store works.
pub fn connection_doctor_report(
    ios_devices: Option<Result<Vec<crate::model::Device>, String>>,
    android_devices: Option<Result<Vec<crate::model::Device>, String>>,
    capture_engine: Result<(String, Option<String>), String>,
    certificate: Option<String>,
    pending_rollback: bool,
    secure_store_available: bool,
) -> (r: ConnectionDoctorReport)
    ensures
        r.checks@.len() == 6,
        r.checks@[0].id@ == "ios-tools"@,
        tool_check_holds(
            listed_count(ios_devices),
            "simctl is available; "@,
            " Simulator runtimes discovered."@,
            "xcrun/simctl is not available on PATH."@,
            "Install Xcode and select Xcode Command Line Tools."@,
            "Open Xcode and confirm Command Line Tools and Simulator runtimes are installed."@,
            r.checks@[0],
        ),
        r.checks@[1].id@ == "android-tools"@,
        tool_check_holds(
            listed_count(android_devices),
            "ADB is available; "@,
            " emulator runtimes discovered."@,
            "adb is not available on PATH."@,
            "Install Android SDK Platform Tools or expose platform-tools on PATH."@,
            "Start ADB and confirm the emulator is listed by `adb devices`."@,
            r.checks@[1],
        ),
        r.checks@[0].title@ == "Xcode / simctl"@,
        r.checks@[1].title@ == "Android Platform Tools / ADB"@,
        match capture_engine {
            Ok((name, version)) => check_is(
                r.checks@[2],
                "capture-engine"@,
                "Capture engine"@,
                DoctorStatus::Pass,
                match version {
                    Some(v) => name@ + " is available ("@ + v@ + ")."@,
                    None => name@ + " is available."@,
                },
                None,
            ) && crate::compare::opt_view(r.capture_executable) == Some("mitmdump"@),
            Err(message) => check_is(
                r.checks@[2],
                "capture-engine"@,
                "Capture engine"@,
                DoctorStatus::Fail,
                message@,
                Some("Install mitmproxy/mitmdump or configure a managed capture sidecar before capturing traffic."@),
            ) && r.capture_executable is None,
        },
        match certificate {
            Some(path) => check_is(
                r.checks@[3],
                "capture-ca"@,
                "Capture certificate"@,
                DoctorStatus::Pass,
                "Local capture CA exists at "@ + path@ + "."@,
                None,
            ),
            None => check_is(
                r.checks@[3],
                "capture-ca"@,
                "Capture certificate"@,
                DoctorStatus::Warning,
                "The isolated capture CA has not been generated yet; mitmdump creates it during capture startup."@,
                Some("Start a capture once to generate the isolated local CA."@),
            ),
        },
        if pending_rollback {
            check_is(
                r.checks@[4],
                "rollback"@,
                "Connection rollback state"@,
                DoctorStatus::Warning,
                "A previous connection left recovery state on disk."@,
                Some("Use Recover on the Connect screen before starting another capture."@),
            )
        } else {
            check_is(
                r.checks@[4],
                "rollback"@,
                "Connection rollback state"@,
                DoctorStatus::Pass,
                "No interrupted connection changes are pending."@,
                None,
            )
        },
        if secure_store_available {
            check_is(
                r.checks@[5],
                "secure-store"@,
                "Secure environment secrets"@,
                DoctorStatus::Pass,
                "Native secure storage is available; secret environment values are stored outside SQLite."@,
                None,
            )
        } else {
            check_is(
                r.checks@[5],
                "secure-store"@,
                "Secure environment secrets"@,
                DoctorStatus::Warning,
                "Native secure secret storage is not available in this desktop build."@,
                None,
            )
        },
        r.booted_ios_count == (match ios_devices {
            Some(Ok(d)) => count_in_state(d@, "booted"@),
            _ => 0,
        }),
        r.android_emulator_count == (match android_devices {
            Some(Ok(d)) => count_in_state(d@, "device"@),
            _ => 0,
        }),
        r.pending_rollback == pending_rollback,
{
    let mut checks: Vec<DoctorCheck> = Vec::new();
    checks.push(
        tool_check(
            "ios-tools",
            "Xcode / simctl",
            &ios_devices,
            "simctl is available; ",
            " Simulator runtimes discovered.",
            "xcrun/simctl is not available on PATH.",
            "Install Xcode and select Xcode Command Line Tools.",
            "Open Xcode and confirm Command Line Tools and Simulator runtimes are installed.",
        ),
    );
    checks.push(
        tool_check(
            "android-tools",
            "Android Platform Tools / ADB",
            &android_devices,
            "ADB is available; ",
            " emulator runtimes discovered.",
            "adb is not available on PATH.",
            "Install Android SDK Platform Tools or expose platform-tools on PATH.",
            "Start ADB and confirm the emulator is listed by `adb devices`.",
        ),
    );
    let capture_executable = match &capture_engine {
        Ok((name, version)) => {
            let mut detail = crate::text::chars_of(name.as_str());
            match version {
                Some(v) => {
                    crate::text::extend_str(&mut detail, " is available (");
                    crate::text::extend_str(&mut detail, v.as_str());
                    crate::text::extend_str(&mut detail, ").");
                },
                None => crate::text::extend_str(&mut detail, " is available."),
            }
            let d = crate::text::string_of(&detail);
            checks.push(check("capture-engine", "Capture engine", DoctorStatus::Pass, d.as_str(), None));
            Some(owned("mitmdump"))
        },
        Err(message) => {
            checks.push(
                check(
                    "capture-engine",
                    "Capture engine",
                    DoctorStatus::Fail,
                    message.as_str(),
                    Some("Install mitmproxy/mitmdump or configure a managed capture sidecar before capturing traffic."),
                ),
            );
            None
        },
    };
    match &certificate {
        Some(path) => {
            let mut detail = crate::text::chars_of("Local capture CA exists at ");
            crate::text::extend_str(&mut detail, path.as_str());
            crate::text::extend_str(&mut detail, ".");
            let d = crate::text::string_of(&detail);
            checks.push(check("capture-ca", "Capture certificate", DoctorStatus::Pass, d.as_str(), None));
        },
        None => {
            checks.push(
                check(
                    "capture-ca",
                    "Capture certificate",
                    DoctorStatus::Warning,
                    "The isolated capture CA has not been generated yet; mitmdump creates it during capture startup.",
                    Some("Start a capture once to generate the isolated local CA."),
                ),
            );
        },
    }
    if pending_rollback {
        checks.push(
            check(
                "rollback",
                "Connection rollback state",
                DoctorStatus::Warning,
                "A previous connection left recovery state on disk.",
                Some("Use Recover on the Connect screen before starting another capture."),
            ),
        );
    } else {
        checks.push(
            check(
                "rollback",
                "Connection rollback state",
                DoctorStatus::Pass,
                "No interrupted connection changes are pending.",
                None,
            ),
        );
    }
    if secure_store_available {
        checks.push(
            check(
                "secure-store",
                "Secure environment secrets",
                DoctorStatus::Pass,
                "Native secure storage is available; secret environment values are stored outside SQLite.",
                None,
            ),
        );
    } else {
        checks.push(
            check(
                "secure-store",
                "Secure environment secrets",
                DoctorStatus::Warning,
                "Native secure secret storage is not available in this desktop build.",
                None,
            ),
        );
    }
    let booted_ios_count = count_state(&ios_devices, "booted");
    let android_emulator_count = count_state(&android_devices, "device");
    ConnectionDoctorReport { checks, capture_executable, booted_ios_count, android_emulator_count, pending_rollback }
}

} // verus!
