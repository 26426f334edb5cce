//! The lock that keeps one local service per data directory: what each
//! check before taking it concludes, and what the lock file holds. Running
//! `pgrep`, `lsof` and `kill -0`, and reading and writing the lock file, is
//! the caller's; each step hands its outcome to the verdict here.
use vstd::prelude::*;

use crate::storage::{join, join_path};
use crate::text::{concat2, decimal, parse_u128, parse_u128_exec, trim, trimmed};

verus! {

/// The process names of the desktop app the service replaces; while one
/// runs, the service does not start.
pub const OLD_APP_PROCESS: &'static str = "mobile-api-studio";

pub const OLD_APP_PROCESS_TITLE: &'static str = "Mobile API Studio";

/// The traffic database in the data directory.
pub const DATABASE_FILE: &'static str = "app.db";

/// The lock file in the data directory.
pub const LOCK_FILE: &'static str = "local-server.lock";

/// How a checking tool exited: whether it succeeded, its exit code where it
/// has one, and its exit status as the platform writes it.
#[derive(Debug, Clone)]
pub struct ToolExit {
    pub success: bool,
    pub code: Option<i32>,
    pub status: String,
}

/// What `str::parse::<u32>` accepts: an optional `+`, then ASCII digits
/// whose value fits in 32 bits.
pub open spec fn parse_u32(s: Seq<char>) -> Option<u32> {
    match parse_u128(s) {
        Some(v) => if v <= u32::MAX {
            Some(v as u32)
        } else {
            None
        },
        None => None,
    }
}

pub open spec fn pgrep_failed_text(status: Seq<char>) -> Seq<char> {
    "Cannot check whether the old app is running (pgrep status "@ + status + ")."@
}

pub open spec fn pgrep_unavailable_text(reason: Seq<char>) -> Seq<char> {
    "Cannot check whether the old app is running: "@ + reason
}

/// Where the traffic database of a data directory is.
pub fn database_path(data_dir: &str) -> (r: String)
    ensures
        r@ == join_path(data_dir@, DATABASE_FILE@),
{
    join(data_dir, DATABASE_FILE)
}

/// Where the lock file of a data directory is.
pub fn lock_path(data_dir: &str) -> (r: String)
    ensures
        r@ == join_path(data_dir@, LOCK_FILE@),
{
    join(data_dir, LOCK_FILE)
}

/// What `pgrep -x <name>` says of the old app: running (refused), not
/// running (exit code 1), or that it cannot be told (any other exit, or no
/// run at all, with the reason).
pub fn pgrep_verdict(run: &Result<ToolExit, String>) -> (r: Result<(), String>)
    ensures
        match run {
            Err(reason) => r matches Err(m) && m@ == pgrep_unavailable_text(reason@),
            Ok(exit) => if exit.success {
                r matches Err(m) && m@ == "Close the historical Mobile API Studio app before starting the local service."@
            } else if exit.code == Some(1i32) {
                r is Ok
            } else {
                r matches Err(m) && m@ == pgrep_failed_text(exit.status@)
            },
        },
{
    match run {
        Err(reason) => Err(concat2("Cannot check whether the old app is running: ", reason.as_str())),
        Ok(exit) => {
            if exit.success {
                Err(crate::text::owned("Close the historical Mobile API Studio app before starting the local service."))
            } else if exit.code == Some(1i32) {
                Ok(())
            } else {
                let mut v = crate::text::chars_of("Cannot check whether the old app is running (pgrep status ");
                crate::text::extend_str(&mut v, exit.status.as_str());
                crate::text::extend_str(&mut v, ").");
                Err(crate::text::string_of(&v))
            }
        },
    }
}

/// What `lsof -t <database>` says of the database `database` (as shown):
/// open elsewhere where it succeeds and names a process; free where it
/// succeeds and names none, or exits with code 1; otherwise, or with no
/// run at all, it cannot be told.
pub fn lsof_verdict(database: &str, run: &Result<(ToolExit, bool), String>) -> (r: Result<(), String>)
    ensures
        match run {
            Err(reason) => r matches Err(m) && m@ == "Cannot check whether "@ + database@ + " is in use: "@ + reason@,
            Ok(pair) => if pair.0.success && !pair.1 {
                r matches Err(m) && m@ == database@
                    + " is in use. Close the other process before starting the local service."@
            } else if !pair.0.success && pair.0.code != Some(1i32) {
                r matches Err(m) && m@ == "Cannot check whether "@ + database@ + " is in use (lsof status "@
                    + pair.0.status@ + ")."@
            } else {
                r is Ok
            },
        },
{
    match run {
        Err(reason) => {
            let mut v = crate::text::chars_of("Cannot check whether ");
            crate::text::extend_str(&mut v, database);
            crate::text::extend_str(&mut v, " is in use: ");
            crate::text::extend_str(&mut v, reason.as_str());
            Err(crate::text::string_of(&v))
        },
        Ok((exit, stdout_empty)) => {
            if exit.success && !*stdout_empty {
                Err(concat2(database, " is in use. Close the other process before starting the local service."))
            } else if !exit.success && exit.code != Some(1i32) {
                let mut v = crate::text::chars_of("Cannot check whether ");
                crate::text::extend_str(&mut v, database);
                crate::text::extend_str(&mut v, " is in use (lsof status ");
                crate::text::extend_str(&mut v, exit.status.as_str());
                crate::text::extend_str(&mut v, ").");
                Err(crate::text::string_of(&v))
            } else {
                Ok(())
            }
        },
    }
}

/// The process a lock file names: its text, trimmed, read as a `u32`.
pub fn stale_lock_pid(content: &str) -> (r: Option<u32>)
    ensures
        r == parse_u32(trim(content@)),
{
    let t = trimmed(content);
    match parse_u128_exec(t.as_str()) {
        Some(v) => if v <= 0xffff_ffffu128 {
            Some(v as u32)
        } else {
            None
        },
        None => None,
    }
}

/// Whether an existing lock file keeps the service from starting: it does
/// where it names a process that is alive; otherwise the lock is stale and
/// is cleared.
pub fn lock_decision(pid: Option<u32>, alive: bool, data_dir: &str) -> (r: Result<(), String>)
    ensures
        match pid {
            Some(p) => if alive {
                r matches Err(m) && m@ == "Another local service is using "@ + data_dir@ + " (process "@ + decimal(
                    p as nat,
                ) + ")."@
            } else {
                r is Ok
            },
            None => r is Ok,
        },
{
    match pid {
        Some(p) => if alive {
            let mut v = crate::text::chars_of("Another local service is using ");
            crate::text::extend_str(&mut v, data_dir);
            crate::text::extend_str(&mut v, " (process ");
            let digits = crate::text::decimal_chars(p as u64);
            crate::text::extend_chars(&mut v, &digits);
            crate::text::extend_str(&mut v, ").");
            Err(crate::text::string_of(&v))
        } else {
            Ok(())
        },
        None => Ok(()),
    }
}

/// The refusal when a stale lock file cannot be removed.
pub fn clear_failed(lock: &str, reason: &str) -> (r: String)
    ensures
        r@ == "Cannot clear stale lock "@ + lock@ + ": "@ + reason@,
{
    let mut v = crate::text::chars_of("Cannot clear stale lock ");
    crate::text::extend_str(&mut v, lock);
    crate::text::extend_str(&mut v, ": ");
    crate::text::extend_str(&mut v, reason);
    crate::text::string_of(&v)
}

/// The refusal when the lock file cannot be created (another service made
/// it first, or the directory refuses it).
pub fn lock_failed(data_dir: &str, reason: &str) -> (r: String)
    ensures
        r@ == "Cannot lock "@ + data_dir@ + ": "@ + reason@,
{
    let mut v = crate::text::chars_of("Cannot lock ");
    crate::text::extend_str(&mut v, data_dir);
    crate::text::extend_str(&mut v, ": ");
    crate::text::extend_str(&mut v, reason);
    crate::text::string_of(&v)
}

/// What the lock file holds: the id of the process that holds it, in
/// decimal.
pub fn lock_content(pid: u32) -> (r: String)
    ensures
        r@ == decimal(pid as nat),
{
    crate::text::decimal_string(pid as u64)
}

/// A lock written by `lock_content` names its process again.
pub proof fn lemma_lock_content_round_trip(pid: u32)
    ensures
        parse_u32(trim(decimal(pid as nat))) == Some(pid),
{
    let d = decimal(pid as nat);
    lemma_decimal_digits(pid as nat);
    assert(!crate::text::is_white_space(d[0]));
    assert(!crate::text::is_white_space(d.last()));
    assert(crate::text::trim_start(d) == d);
    assert(crate::text::trim_end(d) == d);
    assert(d[0] != '+');
}

proof fn lemma_decimal_digits(n: nat)
    ensures
        decimal(n).len() >= 1,
        crate::text::all_digits(decimal(n)),
        crate::text::digits_value(decimal(n)) == n,
    decreases n,
{
    if n < 10 {
        let s = decimal(n);
        assert(s.drop_last() =~= Seq::<char>::empty());
        assert((s.last() as u32) == n + 48);
        assert(crate::text::digits_value(s) == crate::text::digits_value(s.drop_last()) * 10 + ((s.last() as u32) - 48) as nat);
    } else {
        lemma_decimal_digits(n / 10);
        assert((crate::text::digit_char(n % 10) as u32) == n % 10 + 48);
        let s = decimal(n);
        let p = decimal(n / 10);
        assert(s == p.push(crate::text::digit_char(n % 10)));
        assert(s.drop_last() == p);
        assert forall|i: int| 0 <= i < s.len() implies crate::text::is_ascii_digit(#[trigger] s[i]) by {
            if i < p.len() {
                assert(s[i] == p[i]);
            }
        }
        assert(s.last() == crate::text::digit_char(n % 10));
        assert(crate::text::digits_value(s) == crate::text::digits_value(p) * 10 + ((s.last() as u32) - 48) as nat);
        assert((n / 10) * 10 + n % 10 == n) by (nonlinear_arith);
    }
}

} // verus!
