//! The rules of the local HTTP service that serves the studio to a browser:
//! which requests it accepts, how it answers refusals, and the headers that
//! every answer carries.
use vstd::prelude::*;

use crate::model::AppError;
use crate::text::{chars_of, extend_str, string_of};

verus! {

/// An answer that refuses a request: its HTTP status and the error it
/// carries (`{"error": ...}` in the body).
#[derive(Debug, Clone, PartialEq, Eq)]
pub struct Refusal {
    pub status: u16,
    pub error: AppError,
}

/// The refusal with `status`, `code` and `message`; such errors are never
/// recoverable by retrying.
pub fn error(status: u16, code: &str, message: &str) -> (r: Refusal)
    ensures
        r.status == status,
        r.error.code@ == code@,
        r.error.message@ == message@,
        !r.error.recoverable,
{
    Refusal { status, error: AppError::new(code, message, false) }
}

/// What the service accepts of a request's `Host` and `Origin` headers: the
/// host must be its own loopback authority, and an origin, where one is
/// sent, must be `http://` followed by that authority. `host` is the text of
/// the `Host` header (absent where the header is missing or not text);
/// `origin` says whether an `Origin` header was sent and its text.
pub open spec fn host_origin_problem(host: Option<Seq<char>>, origin: Option<Option<Seq<char>>>, authority: Seq<char>) -> Option<Seq<char>> {
    if host != Some(authority) {
        Some("invalid_host"@)
    } else {
        match origin {
            Some(text) => if text != Some("http://"@ + authority) {
                Some("invalid_origin"@)
            } else {
                None
            },
            None => None,
        }
    }
}

/// A request passes exactly when its host is the service's own authority
/// and it either sends no origin or sends `http://` and that authority; a
/// wrong host is refused as such before any origin is looked at.
pub proof fn only_the_own_loopback_authority_passes(
    host: Option<Seq<char>>,
    origin: Option<Option<Seq<char>>>,
    authority: Seq<char>,
)
    ensures
        host_origin_problem(host, origin, authority) is None <==> (host == Some(authority) && (origin is None || origin
            == Some(Some("http://"@ + authority)))),
        host != Some(authority) ==> host_origin_problem(host, origin, authority) == Some("invalid_host"@),
        host == Some(authority) && origin is Some && origin != Some(Some("http://"@ + authority)) ==> host_origin_problem(
            host,
            origin,
            authority,
        ) == Some("invalid_origin"@),
{
}

pub fn validate_host_origin(host: Option<&str>, origin: Option<Option<&str>>, authority: &str) -> (r: Result<(), Refusal>)
    ensures
        r is Ok <==> host_origin_problem(crate::ai::opt_str_view(host), match origin {
            Some(o) => Some(crate::ai::opt_str_view(o)),
            None => None,
        }, authority@) is None,
        r matches Err(e) ==> e.status == 403 && Some(e.error.code@) == host_origin_problem(
            crate::ai::opt_str_view(host),
            match origin {
                Some(o) => Some(crate::ai::opt_str_view(o)),
                None => None,
            },
            authority@,
        ) && !e.error.recoverable,
{
    let host_ok = match host {
        Some(h) => crate::text::str_eq(h, authority),
        None => false,
    };
    if !host_ok {
        return Err(error(403, "invalid_host", "This service accepts only its loopback address."));
    }
    match origin {
        Some(text) => {
            let mut expected = chars_of("http://");
            extend_str(&mut expected, authority);
            let expected = string_of(&expected);
            let origin_ok = match text {
                Some(o) => crate::text::str_eq(o, expected.as_str()),
                None => false,
            };
            if !origin_ok {
                return Err(error(403, "invalid_origin", "Cross-origin requests are not allowed."));
            }
        },
        None => {},
    }
    Ok(())
}

/// A command call carries the session's token in its `x-mas-token` header.
pub fn valid_token(header: Option<&str>, token: &str) -> (r: bool)
    ensures
        r == (crate::ai::opt_str_view(header) == Some(token@)),
{
    match header {
        Some(h) => crate::text::str_eq(h, token),
        None => false,
    }
}

/// The refusal of a command call without the session's token.
pub fn invalid_token() -> (r: Refusal)
    ensures
        r.status == 401,
        r.error.code@ == "invalid_token"@,
        r.error.message@ == "Reload the page to establish a new session."@,
        !r.error.recoverable,
{
    error(401, "invalid_token", "Reload the page to establish a new session.")
}

/// The status of a failed command: 404 for an unknown command, 400 for bad
/// arguments, 422 otherwise.
pub fn invoke_status(code: &str) -> (r: u16)
    ensures
        r == if code@ == "unknown_command"@ {
            404u16
        } else if code@ == "invalid_arguments"@ {
            400u16
        } else {
            422u16
        },
{
    if crate::text::str_eq(code, "unknown_command") {
        404
    } else if crate::text::str_eq(code, "invalid_arguments") {
        400
    } else {
        422
    }
}

pub const CONTENT_SECURITY_POLICY: &'static str = "default-src 'self'; script-src 'self'; style-src 'self' 'unsafe-inline'; img-src 'self' data:; connect-src 'self'; font-src 'self'; object-src 'none'; base-uri 'none'; frame-ancestors 'none'";

/// The headers every answer of the service carries, refusals included: no
/// caching, no content sniffing, no referrer, no framing, and a content
/// security policy that admits only the service's own resources.
pub fn secure_headers() -> (r: Vec<(&'static str, &'static str)>)
    ensures
        r@ == seq![
            ("cache-control", "no-store"),
            ("x-content-type-options", "nosniff"),
            ("referrer-policy", "no-referrer"),
            ("x-frame-options", "DENY"),
            ("content-security-policy", CONTENT_SECURITY_POLICY),
        ],
{
    let mut r: Vec<(&'static str, &'static str)> = Vec::new();
    r.push(("cache-control", "no-store"));
    r.push(("x-content-type-options", "nosniff"));
    r.push(("referrer-policy", "no-referrer"));
    r.push(("x-frame-options", "DENY"));
    r.push(("content-security-policy", CONTENT_SECURITY_POLICY));
    r
}

/// A session token: the 32 random bytes in lower-case hexadecimal.
pub fn token_text(bytes: &Vec<u8>) -> (r: String)
    requires
        bytes@.len() == 32,
    ensures
        r@ == crate::ai::hex_text(bytes@),
        r@.len() == 64,
{
    proof {
        crate::ai::lemma_hex_text_len(bytes@);
    }
    crate::ai::lower_hex(bytes)
}

} // verus!
