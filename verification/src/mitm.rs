//! The `mitmdump` capture engine: where it keeps its configuration, how it
//! is started, and what each of its steps comes to. Running the process
//! and reading its pipes is the caller's; the engine decides from what they
//! gave.
use vstd::prelude::*;

use crate::capture::{CaptureCapabilities, CaptureConfig, CaptureError, CaptureHandle};
use crate::compare::{lossy_text, utf8_lossy};
use crate::storage::{join, join_path};
use crate::text::{before_first, copy_string, owned, trim};

verus! {

/// The file in the configuration directory that holds the capture CA.
pub const CA_CERTIFICATE_FILE: &'static str = "mitmproxy-ca-cert.pem";

/// The executable the engine starts when none is configured.
pub const DEFAULT_EXECUTABLE: &'static str = "mitmdump";

/// What `mitmdump --version` came to: whether it exited successfully and
/// what it wrote.
#[derive(Debug, Clone)]
pub struct VersionOutput {
    pub success: bool,
    pub stdout: Vec<u8>,
    pub stderr: Vec<u8>,
}

/// A capture engine that runs `mitmdump` with the capture addon.
#[derive(Debug, Clone)]
pub struct MitmDumpEngine {
    executable: String,
    addon_path: String,
    conf_dir: String,
}

/// The version `mitmdump` reports: the first line of its output, trimmed,
/// where that is not empty.
pub open spec fn reported_version(stdout: Seq<u8>) -> Option<Seq<char>> {
    let line = trim(before_first(utf8_lossy(stdout), '\n'));
    if line.len() == 0 {
        None
    } else {
        Some(line)
    }
}

/// The arguments that start a capture: quiet, listening where the
/// configuration says, with the engine's configuration directory, open to
/// every client, and with the addon as its script.
pub open spec fn start_arguments_for(
    listen_host: Seq<char>,
    listen_port: u16,
    conf_dir: Seq<char>,
    addon_path: Seq<char>,
) -> Seq<Seq<char>> {
    seq![
        "--quiet"@,
        "--listen-host"@,
        listen_host,
        "--listen-port"@,
        crate::text::decimal(listen_port as nat),
        "--set"@,
        "confdir="@ + conf_dir,
        "--set"@,
        "block_global=false"@,
        "-s"@,
        addon_path,
    ]
}

/// The text of a sequence of strings, each taken by its view.
pub open spec fn texts(v: Seq<String>) -> Seq<Seq<char>> {
    Seq::new(v.len(), |i: int| v[i]@)
}

impl MitmDumpEngine {
    pub closed spec fn executable_path(&self) -> Seq<char> {
        self.executable@
    }

    pub closed spec fn addon(&self) -> Seq<char> {
        self.addon_path@
    }

    pub closed spec fn configuration(&self) -> Seq<char> {
        self.conf_dir@
    }

    /// An engine that runs `mitmdump` from the PATH with the addon at
    /// `addon_path` and its configuration under `conf_dir`.
    pub fn new(addon_path: &str, conf_dir: &str) -> (e: Self)
        ensures
            e.executable_path() == DEFAULT_EXECUTABLE@,
            e.addon() == addon_path@,
            e.configuration() == conf_dir@,
    {
        MitmDumpEngine { executable: owned(DEFAULT_EXECUTABLE), addon_path: owned(addon_path), conf_dir: owned(conf_dir) }
    }

    /// The same engine, running `executable` instead.
    pub fn with_executable(self, executable: &str) -> (e: Self)
        ensures
            e.executable_path() == executable@,
            e.addon() == self.addon(),
            e.configuration() == self.configuration(),
    {
        MitmDumpEngine { executable: owned(executable), addon_path: self.addon_path, conf_dir: self.conf_dir }
    }

    pub fn executable(&self) -> (r: &str)
        ensures
            r@ == self.executable_path(),
    {
        self.executable.as_str()
    }

    pub fn addon_path(&self) -> (r: &str)
        ensures
            r@ == self.addon(),
    {
        self.addon_path.as_str()
    }

    pub fn conf_dir(&self) -> (r: &str)
        ensures
            r@ == self.configuration(),
    {
        self.conf_dir.as_str()
    }

    /// Where the capture CA's certificate is: in the configuration
    /// directory.
    pub fn certificate_path(&self) -> (r: String)
        ensures
            r@ == join_path(self.configuration(), CA_CERTIFICATE_FILE@),
    {
        join(self.conf_dir.as_str(), CA_CERTIFICATE_FILE)
    }

    /// The refusal when the capture addon is not a file.
    pub fn addon_missing(&self) -> (e: CaptureError)
        ensures
            e.code@ == "mitm_addon_missing"@,
            e.message@ == "Capture addon not found at "@ + self.addon(),
            e.recoverable,
    {
        let message = crate::text::concat2("Capture addon not found at ", self.addon_path.as_str());
        CaptureError::new("mitm_addon_missing", message.as_str(), true)
    }

    /// The refusal when the configuration directory cannot be created.
    pub fn conf_dir_failed(message: &str) -> (e: CaptureError)
        ensures
            e.code@ == "mitm_confdir_failed"@,
            e.message@ == message@,
            e.recoverable,
    {
        CaptureError::new("mitm_confdir_failed", message, true)
    }

    /// What preparing the engine comes to once `mitmdump --version` was
    /// run, or could not be launched (`Err` with the reason): the engine's
    /// capabilities with the version it reports, or why it cannot capture.
    pub fn capabilities(run: Result<VersionOutput, String>) -> (r: Result<CaptureCapabilities, CaptureError>)
        ensures
            match run {
                Err(reason) => r matches Err(e) && e.code@ == "mitmdump_unavailable"@
                    && e.message@ == "Unable to launch mitmdump: "@ + reason@ && e.recoverable,
                Ok(out) => if out.success {
                    r matches Ok(c) && c.engine_name@ == "mitmdump"@
                        && crate::compare::opt_view(c.engine_version) == reported_version(out.stdout@)
                        && c.supports_https && c.supports_http2 && c.supports_websocket
                } else {
                    r matches Err(e) && e.code@ == "mitmdump_version_failed"@
                        && e.message@ == trim(utf8_lossy(out.stderr@)) && e.recoverable
                },
            },
    {
        let out = match run {
            Err(reason) => {
                let message = crate::text::concat2("Unable to launch mitmdump: ", reason.as_str());
                return Err(CaptureError::new("mitmdump_unavailable", message.as_str(), true));
            },
            Ok(out) => out,
        };
        if !out.success {
            let text = lossy_text(out.stderr.as_slice());
            let detail = crate::text::trimmed(text.as_str());
            return Err(CaptureError::new("mitmdump_version_failed", detail.as_str(), true));
        }
        let text = lossy_text(out.stdout.as_slice());
        let first = crate::text::before_first_exec(&crate::text::chars_of(text.as_str()), '\n');
        let line = crate::text::trim_chars(&first);
        let engine_version = if line.len() == 0 {
            None
        } else {
            Some(crate::text::string_of(&line))
        };
        Ok(
            CaptureCapabilities {
                engine_name: owned(DEFAULT_EXECUTABLE),
                engine_version,
                supports_https: true,
                supports_http2: true,
                supports_websocket: true,
            },
        )
    }

    /// The arguments `mitmdump` is started with for a capture.
    pub fn start_arguments(&self, config: &CaptureConfig) -> (args: Vec<String>)
        ensures
            texts(args@) == start_arguments_for(config.listen_host@, config.listen_port, self.configuration(), self.addon()),
    {
        let mut args: Vec<String> = Vec::new();
        args.push(owned("--quiet"));
        args.push(owned("--listen-host"));
        args.push(copy_string(&config.listen_host));
        args.push(owned("--listen-port"));
        args.push(crate::text::decimal_string(config.listen_port as u64));
        args.push(owned("--set"));
        args.push(crate::text::concat2("confdir=", self.conf_dir.as_str()));
        args.push(owned("--set"));
        args.push(owned("block_global=false"));
        args.push(owned("-s"));
        args.push(copy_string(&self.addon_path));
        assert(texts(args@) =~= start_arguments_for(config.listen_host@, config.listen_port, self.configuration(), self.addon()));
        args
    }

    /// The refusal when `mitmdump` cannot be started.
    pub fn start_failed(reason: &str) -> (e: CaptureError)
        ensures
            e.code@ == "mitmdump_start_failed"@,
            e.message@ == "Unable to start mitmdump: "@ + reason@,
            e.recoverable,
    {
        let message = crate::text::concat2("Unable to start mitmdump: ", reason);
        CaptureError::new("mitmdump_start_failed", message.as_str(), true)
    }

    /// The handle of a capture started at `started_ms` milliseconds since
    /// the epoch.
    pub fn handle(started_ms: u128, config: &CaptureConfig) -> (h: CaptureHandle)
        ensures
            h.id@ == "mitm-"@ + crate::text::decimal(started_ms as nat),
            h.session_id == config.session_id,
            h.listen_host == config.listen_host,
            h.listen_port == config.listen_port,
    {
        let mut id = crate::text::chars_of("mitm-");
        let digits = crate::text::decimal_chars_wide(started_ms);
        crate::text::extend_chars(&mut id, &digits);
        CaptureHandle {
            id: crate::text::string_of(&id),
            session_id: copy_string(&config.session_id),
            listen_host: copy_string(&config.listen_host),
            listen_port: config.listen_port,
        }
    }

    /// The refusal when a running `mitmdump` cannot be stopped.
    pub fn stop_failed(reason: &str) -> (e: CaptureError)
        ensures
            e.code@ == "mitmdump_stop_failed"@,
            e.message@ == "Unable to stop mitmdump: "@ + reason@,
            e.recoverable,
    {
        let message = crate::text::concat2("Unable to stop mitmdump: ", reason);
        CaptureError::new("mitmdump_stop_failed", message.as_str(), true)
    }
}

} // verus!
