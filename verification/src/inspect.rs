//! What the traffic inspector shows of a captured flow: its bodies, and the
//! request as a `curl` command.
use vstd::prelude::*;

use crate::model::{AppError, FlowDetail, HeaderValue, RequestDetail};
use crate::portable::{base64_encoded, encode_base64};
use crate::sdk::SDK_CORRELATION_HEADER;
use crate::text::{chars_of, extend_str, owned, seq_lower, string_of};

verus! {

/// A stored body as the inspector shows it: as text where it is valid
/// UTF-8, in base64 otherwise.
#[derive(Debug, Clone, PartialEq, Eq)]
pub struct BodyPayload {
    pub sha256: String,
    pub text: Option<String>,
    pub base64: Option<String>,
}

/// The payload of the stored body `sha256`, whose bytes are `bytes`.
pub fn read_body(sha256: String, bytes: Vec<u8>) -> (p: BodyPayload)
    ensures
        p.sha256 == sha256,
        vstd::utf8::valid_utf8(bytes@) ==> (p.text matches Some(t) && t@ == vstd::utf8::decode_utf8(bytes@)) && p.base64 is None,
        !vstd::utf8::valid_utf8(bytes@) ==> p.text is None && (p.base64 matches Some(b) && b@ == base64_encoded(bytes@)),
{
    let copy = bytes.clone();
    assert(copy@ == bytes@);
    match crate::text::utf8_string(copy) {
        Some(text) => BodyPayload { sha256, text: Some(text), base64: None },
        None => BodyPayload { sha256, text: None, base64: Some(encode_base64(bytes.as_slice())) },
    }
}

// ---------------------------------------------------------------------------
// curl
// ---------------------------------------------------------------------------

pub open spec fn escape_quotes(s: Seq<char>) -> Seq<char>
    decreases s.len(),
{
    if s.len() == 0 {
        s
    } else if s.last() == '\'' {
        escape_quotes(s.drop_last()) + "'\"'\"'"@
    } else {
        escape_quotes(s.drop_last()).push(s.last())
    }
}

/// A word quoted for a POSIX shell: in single quotes, each single quote
/// written as `'"'"'`; the empty word as `''`.
pub open spec fn shell_quoted(s: Seq<char>) -> Seq<char> {
    if s.len() == 0 {
        "''"@
    } else {
        "'"@ + escape_quotes(s) + "'"@
    }
}

pub fn shell_quote(value: &str) -> (r: String)
    ensures
        r@ == shell_quoted(value@),
{
    let v = chars_of(value);
    if v.len() == 0 {
        return owned("''");
    }
    let mut out = chars_of("'");
    let ghost start = out@;
    let mut i: usize = 0;
    while i < v.len()
        invariant
            i <= v@.len(),
            start == "'"@,
            out@ == start + escape_quotes(v@.take(i as int)),
        decreases v@.len() - i,
    {
        assert(v@.take(i + 1).drop_last() == v@.take(i as int));
        assert(v@.take(i + 1).last() == v@[i as int]);
        if v[i] == '\'' {
            extend_str(&mut out, "'\"'\"'");
            assert(start + escape_quotes(v@.take(i + 1)) == start + escape_quotes(v@.take(i as int)) + "'\"'\"'"@);
        } else {
            out.push(v[i]);
            assert(start + escape_quotes(v@.take(i + 1)) == (start + escape_quotes(v@.take(i as int))).push(v@[i as int]));
        }
        i = i + 1;
    }
    assert(v@.take(v@.len() as int) == v@);
    extend_str(&mut out, "'");
    string_of(&out)
}

/// Words joined with single spaces.
pub open spec fn spaced(parts: Seq<Seq<char>>) -> Seq<char>
    decreases parts.len(),
{
    if parts.len() == 0 {
        seq![]
    } else if parts.len() == 1 {
        parts[0]
    } else {
        spaced(parts.drop_last()) + " "@ + parts.last()
    }
}

/// The `--header` words for the headers of a request; the SDK's
/// correlation header is left out and sensitive values are hidden.
pub open spec fn header_words(headers: Seq<HeaderValue>) -> Seq<Seq<char>>
    decreases headers.len(),
{
    if headers.len() == 0 {
        seq![]
    } else {
        let h = headers.last();
        let rest = header_words(headers.drop_last());
        if seq_lower(h.name@) == seq_lower(SDK_CORRELATION_HEADER@) {
            rest
        } else {
            rest + seq![
                "--header"@,
                shell_quoted(h.name@ + ": "@ + if h.sensitive { "<redacted>"@ } else { h.value@ }),
            ]
        }
    }
}

/// The `--data-raw` words for a request body: only a text body that is
/// valid UTF-8 goes into the command.
pub open spec fn body_words(request: RequestDetail, bytes: Option<Seq<u8>>) -> Seq<Seq<char>> {
    match (request.body, bytes) {
        (Some(b), Some(x)) => if !b.is_binary && vstd::utf8::valid_utf8(x) {
            seq!["--data-raw"@, shell_quoted(vstd::utf8::decode_utf8(x))]
        } else {
            seq![]
        },
        _ => seq![],
    }
}

/// The `curl` command that repeats a captured request.
pub open spec fn curl_command(request: RequestDetail, bytes: Option<Seq<u8>>) -> Seq<char> {
    spaced(
        seq!["curl"@, "--request"@, shell_quoted(request.method@), shell_quoted(request.url@)] + header_words(
            request.headers@,
        ) + body_words(request, bytes),
    )
}

proof fn lemma_spaced_push(parts: Seq<Seq<char>>, w: Seq<char>)
    requires
        parts.len() > 0,
    ensures
        spaced(parts.push(w)) == spaced(parts) + " "@ + w,
{
    assert(parts.push(w).drop_last() == parts);
}

fn push_word(out: &mut Vec<char>, words: Ghost<Seq<Seq<char>>>, w: &str)
    requires
        words@.len() > 0,
        old(out)@ == spaced(words@),
    ensures
        final(out)@ == spaced(words@.push(w@)),
{
    extend_str(out, " ");
    extend_str(out, w);
    proof {
        lemma_spaced_push(words@, w@);
    }
}

/// A captured request as a `curl` command. `stored_body` holds the bytes of
/// the stored request body where the request has a text body.
pub fn export_curl(detail: Option<FlowDetail>, stored_body: Option<Vec<u8>>) -> (r: Result<String, AppError>)
    ensures
        match detail {
            None => r matches Err(e) && e.code@ == "flow_detail_missing"@ && e.message@ == "Flow details were not found."@,
            Some(d) => match d.request {
                None => r matches Err(e) && e.code@ == "request_detail_missing"@ && e.message@
                    == "Request details were not captured."@,
                Some(q) => r matches Ok(c) && c@ == curl_command(
                    q,
                    match stored_body {
                        Some(b) => Some(b@),
                        None => None,
                    },
                ),
            },
        },
{
    let d = match detail {
        Some(d) => d,
        None => {
            return Err(AppError::new("flow_detail_missing", "Flow details were not found.", true));
        },
    };
    let request = match d.request {
        Some(q) => q,
        None => {
            return Err(AppError::new("request_detail_missing", "Request details were not captured.", true));
        },
    };
    let mut out = chars_of("curl");
    let ghost mut words: Seq<Seq<char>> = seq!["curl"@];
    assert(spaced(words) == "curl"@);
    push_word(&mut out, Ghost(words), "--request");
    proof {
        words = words.push("--request"@);
    }
    let method = shell_quote(request.method.as_str());
    push_word(&mut out, Ghost(words), method.as_str());
    proof {
        words = words.push(method@);
    }
    let url = shell_quote(request.url.as_str());
    push_word(&mut out, Ghost(words), url.as_str());
    proof {
        words = words.push(url@);
    }
    let ghost head = words;
    assert(head == seq!["curl"@, "--request"@, shell_quoted(request.method@), shell_quoted(request.url@)]);
    let mut i: usize = 0;
    while i < request.headers.len()
        invariant
            i <= request.headers@.len(),
            head.len() == 4,
            words == head + header_words(request.headers@.take(i as int)),
            out@ == spaced(words),
        decreases request.headers@.len() - i,
    {
        assert(request.headers@.take(i + 1).drop_last() == request.headers@.take(i as int));
        assert(request.headers@.take(i + 1).last() == request.headers@[i as int]);
        let h = &request.headers[i];
        if !crate::text::eq_ignore_case(h.name.as_str(), SDK_CORRELATION_HEADER) {
            push_word(&mut out, Ghost(words), "--header");
            proof {
                words = words.push("--header"@);
            }
            let mut line = chars_of(h.name.as_str());
            extend_str(&mut line, ": ");
            if h.sensitive {
                extend_str(&mut line, "<redacted>");
            } else {
                extend_str(&mut line, h.value.as_str());
            }
            let line = string_of(&line);
            let quoted = shell_quote(line.as_str());
            push_word(&mut out, Ghost(words), quoted.as_str());
            proof {
                words = words.push(quoted@);
                assert(words == head + header_words(request.headers@.take(i + 1)));
            }
        }
        i = i + 1;
    }
    assert(request.headers@.take(request.headers@.len() as int) == request.headers@);
    let ghost before_body = words;
    let ghost opt_bytes = match &stored_body {
        Some(b) => Some(b@),
        None => None::<Seq<u8>>,
    };
    match &request.body {
        Some(b) => {
            if !b.is_binary {
                match stored_body {
                    Some(bytes) => {
                        match crate::text::utf8_string(bytes) {
                            Some(text) => {
                                push_word(&mut out, Ghost(words), "--data-raw");
                                proof {
                                    words = words.push("--data-raw"@);
                                }
                                let quoted = shell_quote(text.as_str());
                                push_word(&mut out, Ghost(words), quoted.as_str());
                                proof {
                                    words = words.push(quoted@);
                                    assert(body_words(request, opt_bytes) == seq!["--data-raw"@, quoted@]);
                                    assert(words =~= before_body + body_words(request, opt_bytes));
                                }
                            },
                            None => {},
                        }
                    },
                    None => {},
                }
            }
        },
        None => {},
    }
    proof {
        if words == before_body {
            assert(body_words(request, opt_bytes) =~= seq![]);
        }
        assert(words =~= before_body + body_words(request, opt_bytes));
        assert(before_body == head + header_words(request.headers@));
        assert(head + header_words(request.headers@) + body_words(request, opt_bytes) =~= seq![
            "curl"@,
            "--request"@,
            shell_quoted(request.method@),
            shell_quoted(request.url@),
        ] + header_words(request.headers@) + body_words(request, opt_bytes));
    }
    Ok(string_of(&out))
}

} // verus!
