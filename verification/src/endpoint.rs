//! Grouping requests by endpoint: paths with identifiers in them are folded
//! into one template.
use vstd::prelude::*;

use crate::model::FlowSummary;
use crate::text::{
    all_digits, before_first, before_first_exec, chars_of, extend_chars, extend_str, is_alnum_char,
    is_ascii_alphanumeric, is_ascii_hexdigit, is_digit_char, is_hex_char, lower_chars, owned,
    seq_lower, string_of, is_ascii_digit,
};

verus! {

// ---------------------------------------------------------------------------
// Splitting
// ---------------------------------------------------------------------------

/// The pieces of `s` between occurrences of `sep` (`str::split`): always at
/// least one piece, empty pieces included.
pub open spec fn split_on(s: Seq<char>, sep: char) -> Seq<Seq<char>>
    decreases s.len(),
{
    if s.len() == 0 {
        seq![Seq::<char>::empty()]
    } else {
        let rest = split_on(s.drop_last(), sep);
        if s.last() == sep {
            rest.push(Seq::<char>::empty())
        } else {
            rest.update(rest.len() - 1, rest.last().push(s.last()))
        }
    }
}

pub proof fn lemma_split_on_nonempty(s: Seq<char>, sep: char)
    ensures
        split_on(s, sep).len() >= 1,
    decreases s.len(),
{
    if s.len() > 0 {
        lemma_split_on_nonempty(s.drop_last(), sep);
    }
}

pub open spec fn views(v: Seq<Vec<char>>) -> Seq<Seq<char>> {
    v.map_values(|x: Vec<char>| x@)
}

/// `str::split` on a single character.
pub fn split_chars(v: &Vec<char>, sep: char) -> (r: Vec<Vec<char>>)
    ensures
        views(r@) == split_on(v@, sep),
{
    let mut done: Vec<Vec<char>> = Vec::new();
    let mut cur: Vec<char> = Vec::new();
    for i in 0..v.len()
        invariant
            split_on(v@.take(i as int), sep) == views(done@).push(cur@),
    {
        let c = v[i];
        assert(v@.take(i + 1).drop_last() == v@.take(i as int));
        proof {
            lemma_split_on_nonempty(v@.take(i as int), sep);
        }
        if c == sep {
            let ghost old_done = done@;
            done.push(cur);
            cur = Vec::new();
            assert(views(done@) == views(old_done).push(views(old_done.push(done@.last()))[old_done.len() as int]));
            assert(views(done@).push(cur@) =~= views(old_done).push(split_on(v@.take(i as int), sep).last()).push(Seq::<char>::empty()));
            assert(split_on(v@.take(i as int), sep) == views(old_done).push(split_on(v@.take(i as int), sep).last()));
        } else {
            let ghost before = cur@;
            cur.push(c);
            assert(views(done@).push(cur@) =~= (views(done@).push(before)).update(
                views(done@).len() as int,
                before.push(c),
            ));
        }
    }
    assert(v@.take(v.len() as int) == v@);
    done.push(cur);
    done
}

// ---------------------------------------------------------------------------
// Dynamic segments
// ---------------------------------------------------------------------------

pub open spec fn uuid_like(s: Seq<char>) -> bool {
    &&& s.len() == 36
    &&& forall|i: int|
        0 <= i < 36 ==> if i == 8 || i == 13 || i == 18 || i == 23 {
            #[trigger] s[i] == '-'
        } else {
            is_ascii_hexdigit(s[i])
        }
}

pub open spec fn is_id_char(c: char) -> bool {
    is_ascii_alphanumeric(c) || c == '-' || c == '_'
}

/// A path segment that carries an identifier: all digits, a UUID, or a
/// long token of letters, digits, `-` and `_`.
pub open spec fn looks_dynamic(segment: Seq<char>) -> bool {
    ||| (segment.len() > 0 && all_digits(segment))
    ||| uuid_like(seq_lower(segment))
    ||| (segment.len() >= 20 && forall|i: int|
        0 <= i < segment.len() ==> is_id_char(#[trigger] seq_lower(segment)[i]))
}

fn all_digit_chars(v: &Vec<char>) -> (r: bool)
    ensures
        r == all_digits(v@),
{
    for i in 0..v.len()
        invariant
            forall|j: int| 0 <= j < i ==> is_ascii_digit(#[trigger] v@[j]),
    {
        if !is_digit_char(v[i]) {
            return false;
        }
    }
    true
}

fn is_uuid_like(v: &Vec<char>) -> (r: bool)
    ensures
        r == uuid_like(v@),
{
    if v.len() != 36 {
        return false;
    }
    for i in 0..36
        invariant
            v@.len() == 36,
            forall|j: int|
                0 <= j < i ==> if j == 8 || j == 13 || j == 18 || j == 23 {
                    #[trigger] v@[j] == '-'
                } else {
                    is_ascii_hexdigit(v@[j])
                },
    {
        let ok = if i == 8 || i == 13 || i == 18 || i == 23 {
            v[i] == '-'
        } else {
            is_hex_char(v[i])
        };
        if !ok {
            return false;
        }
    }
    true
}

fn all_id_chars(v: &Vec<char>) -> (r: bool)
    ensures
        r == forall|i: int| 0 <= i < v@.len() ==> is_id_char(#[trigger] v@[i]),
{
    for i in 0..v.len()
        invariant
            forall|j: int| 0 <= j < i ==> is_id_char(#[trigger] v@[j]),
    {
        let c = v[i];
        if !(is_alnum_char(c) || c == '-' || c == '_') {
            return false;
        }
    }
    true
}

/// Whether a path segment carries an identifier.
pub fn looks_dynamic_segment(segment: &Vec<char>) -> (r: bool)
    ensures
        r == looks_dynamic(segment@),
{
    if segment.len() > 0 && all_digit_chars(segment) {
        return true;
    }
    let lower = lower_chars(segment);
    if is_uuid_like(&lower) {
        return true;
    }
    segment.len() >= 20 && all_id_chars(&lower)
}

// ---------------------------------------------------------------------------
// Path templates
// ---------------------------------------------------------------------------

pub open spec fn template_segment(segment: Seq<char>) -> Seq<char> {
    if looks_dynamic(segment) {
        ":id"@
    } else {
        segment
    }
}

/// A segment of at least 20 ASCII letters, digits, `-` and `_` is an
/// identifier: its template is `:id`.
pub proof fn long_tokens_are_identifiers(segment: Seq<char>)
    requires
        segment.len() >= 20,
        forall|i: int| 0 <= i < segment.len() ==> ({
            let c = #[trigger] segment[i];
            ('a' <= c && c <= 'z') || ('A' <= c && c <= 'Z') || ('0' <= c && c <= '9') || c == '-' || c == '_'
        }),
    ensures
        template_segment(segment) == ":id"@,
{
    assert forall|i: int| 0 <= i < segment.len() implies is_id_char(#[trigger] seq_lower(segment)[i]) by {
        let c = segment[i];
        assert(seq_lower(segment)[i] == crate::text::ascii_lower(c));
    }
}

/// A UUID (32 hexadecimal digits in groups of 8, 4, 4, 4 and 12 separated
/// by `-`, in any case) is an identifier: its template is `:id`.
pub proof fn uuids_are_identifiers(segment: Seq<char>)
    requires
        segment.len() == 36,
        forall|i: int| 0 <= i < 36 ==> ({
            let c = #[trigger] segment[i];
            if i == 8 || i == 13 || i == 18 || i == 23 {
                c == '-'
            } else {
                ('0' <= c && c <= '9') || ('a' <= c && c <= 'f') || ('A' <= c && c <= 'F')
            }
        }),
    ensures
        template_segment(segment) == ":id"@,
{
    let l = seq_lower(segment);
    assert forall|i: int| 0 <= i < 36 implies if i == 8 || i == 13 || i == 18 || i == 23 {
        #[trigger] l[i] == '-'
    } else {
        crate::text::is_ascii_hexdigit(l[i])
    } by {
        assert(l[i] == crate::text::ascii_lower(segment[i]));
    }
}

/// A segment of digits alone is an identifier: its template is `:id`.
pub proof fn numbers_are_identifiers(segment: Seq<char>)
    requires
        segment.len() > 0,
        forall|i: int| 0 <= i < segment.len() ==> '0' <= #[trigger] segment[i] && segment[i] <= '9',
    ensures
        template_segment(segment) == ":id"@,
{
}

/// The non-empty segments, each turned into its template form.
pub open spec fn template_parts(segments: Seq<Seq<char>>) -> Seq<Seq<char>>
    decreases segments.len(),
{
    if segments.len() == 0 {
        Seq::empty()
    } else {
        let rest = template_parts(segments.drop_last());
        if segments.last().len() == 0 {
            rest
        } else {
            rest.push(template_segment(segments.last()))
        }
    }
}

/// The parts joined with `/` between them.
pub open spec fn join_slash(parts: Seq<Seq<char>>) -> Seq<char>
    decreases parts.len(),
{
    if parts.len() == 0 {
        Seq::empty()
    } else if parts.len() == 1 {
        parts[0]
    } else {
        join_slash(parts.drop_last()) + seq!['/'] + parts.last()
    }
}

/// The template of a request path: the query is dropped, empty segments are
/// dropped, and every segment that carries an identifier becomes `:id`; the
/// result always starts with `/`.
pub open spec fn path_template(path: Seq<char>) -> Seq<char> {
    seq!['/'] + join_slash(template_parts(split_on(before_first(path, '?'), '/')))
}

/// The template of a request path, such as `/users/:id/orders` for
/// `/users/42/orders?page=2`.
pub fn normalize_endpoint_path(path: &str) -> (r: String)
    ensures
        r@ == path_template(path@),
{
    let chars = chars_of(path);
    let path_only = before_first_exec(&chars, '?');
    let segments = split_chars(&path_only, '/');
    let ghost segs = views(segments@);
    proof {
        lemma_split_no_sep(path_only@, '/');
    }
    let mut result: Vec<char> = Vec::new();
    let n = segments.len();
    for i in 0..n
        invariant
            n == segments@.len(),
            segs == views(segments@),
            forall|a: int, b: int| 0 <= a < segs.len() && 0 <= b < segs[a].len() ==> #[trigger] segs[a][b] != '/',
            i == 0 ==> result@.len() == 0,
            i > 0 ==> result@ == seq!['/'] + join_slash(template_parts(segs.take(i as int))),
    {
        let segment = &segments[i];
        assert(segs[i as int] == segment@);
        assert(segs.take(i + 1).drop_last() == segs.take(i as int));
        let ghost prev = template_parts(segs.take(i as int));
        proof {
            let t = segs.take(i as int);
            assert forall|a: int, b: int| 0 <= a < t.len() && 0 <= b < t[a].len() implies #[trigger] t[a][b] != '/' by {
                assert(t[a] == segs[a]);
            }
            lemma_template_parts_shape(t);
            if prev.len() > 0 {
                lemma_join_slash_no_trailing(prev);
            }
        }
        if segment.len() == 0 {
            if result.len() == 0 {
                result.push('/');
                assert(prev.len() == 0) by {
                    if i > 0 {
                        assert(result@.len() > 0);
                    }
                };
                assert(join_slash(prev) == Seq::<char>::empty());
                assert(result@ =~= seq!['/'] + join_slash(template_parts(segs.take(i + 1))));
            }
        } else {
            let ends_with_slash = result.len() > 0 && result[result.len() - 1] == '/';
            if !ends_with_slash {
                result.push('/');
            }
            let dynamic = looks_dynamic_segment(segment);
            if dynamic {
                extend_str(&mut result, ":id");
            } else {
                extend_chars(&mut result, segment);
            }
            proof {
                let part = template_segment(segs[i as int]);
                assert(template_parts(segs.take(i + 1)) == prev.push(part));
                if prev.len() == 0 {
                    assert(join_slash(prev.push(part)) == part);
                } else {
                    assert(prev.push(part).drop_last() =~= prev);
                    assert(join_slash(prev.push(part)) == join_slash(prev) + seq!['/'] + part);
                    lemma_join_slash_no_trailing(prev);
                }
                assert(result@ =~= seq!['/'] + join_slash(template_parts(segs.take(i + 1))));
            }
        }
    }
    proof {
        lemma_split_on_nonempty(before_first(chars@, '?'), '/');
        assert(segs.take(n as int) == segs);
    }
    string_of(&result)
}

proof fn lemma_split_no_sep(s: Seq<char>, sep: char)
    ensures
        forall|i: int, j: int|
            0 <= i < split_on(s, sep).len() && 0 <= j < split_on(s, sep)[i].len() ==> #[trigger] split_on(
                s,
                sep,
            )[i][j] != sep,
    decreases s.len(),
{
    if s.len() > 0 {
        lemma_split_no_sep(s.drop_last(), sep);
        lemma_split_on_nonempty(s.drop_last(), sep);
        let rest = split_on(s.drop_last(), sep);
        if s.last() != sep {
            let r = split_on(s, sep);
            assert forall|i: int, j: int| 0 <= i < r.len() && 0 <= j < r[i].len() implies #[trigger] r[i][j] != sep by {
                if i == rest.len() - 1 {
                    if j < rest.last().len() {
                        assert(r[i][j] == rest[i][j]);
                    }
                } else {
                    assert(r[i] == rest[i]);
                }
            }
        }
    }
}

proof fn lemma_template_parts_shape(segs: Seq<Seq<char>>)
    requires
        forall|i: int, j: int| 0 <= i < segs.len() && 0 <= j < segs[i].len() ==> #[trigger] segs[i][j] != '/',
    ensures
        forall|k: int|
            0 <= k < template_parts(segs).len() ==> (#[trigger] template_parts(segs)[k]).len() > 0
                && template_parts(segs)[k].last() != '/',
    decreases segs.len(),
{
    if segs.len() > 0 {
        let init = segs.drop_last();
        assert forall|i: int, j: int| 0 <= i < init.len() && 0 <= j < init[i].len() implies #[trigger] init[i][j] != '/' by {
            assert(init[i] == segs[i]);
        }
        lemma_template_parts_shape(init);
        if segs.last().len() > 0 {
            let last = segs.last();
            assert forall|j: int| 0 <= j < last.len() implies last[j] != '/' by {
                assert(last[j] == segs[segs.len() - 1][j]);
            }
            lemma_template_segment_nonempty_no_slash(last);
        }
        let r = template_parts(init);
        assert forall|k: int| 0 <= k < template_parts(segs).len() implies (#[trigger] template_parts(segs)[k]).len() > 0
            && template_parts(segs)[k].last() != '/' by {
            if k < r.len() {
                assert(template_parts(segs)[k] == r[k]);
            }
        }
    }
}

proof fn lemma_template_segment_nonempty_no_slash(seg: Seq<char>)
    requires
        seg.len() > 0,
        forall|i: int| 0 <= i < seg.len() ==> seg[i] != '/',
    ensures
        template_segment(seg).len() > 0,
        template_segment(seg).last() != '/',
{
    reveal_strlit(":id");
}

proof fn lemma_join_slash_no_trailing(parts: Seq<Seq<char>>)
    requires
        parts.len() > 0,
        forall|i: int| 0 <= i < parts.len() ==> (#[trigger] parts[i]).len() > 0 && parts[i].last() != '/',
    ensures
        join_slash(parts).len() > 0,
        join_slash(parts).last() != '/',
    decreases parts.len(),
{
    if parts.len() > 1 {
        lemma_join_slash_no_trailing(parts.drop_last());
    }
}

// ---------------------------------------------------------------------------
// Endpoints
// ---------------------------------------------------------------------------

/// The endpoint a request belongs to.
#[derive(Debug, Clone, PartialEq, Eq)]
pub struct EndpointIdentity {
    pub key: String,
    pub method: String,
    pub host: String,
    pub path_template: String,
}

/// The key of an endpoint: `METHOD host/template`.
pub open spec fn endpoint_key(method: Seq<char>, host: Seq<char>, path: Seq<char>) -> Seq<char> {
    method + seq![' '] + host + path_template(path)
}

/// The endpoint of a request, keyed as `METHOD host/template`.
pub fn normalize_endpoint(method: &str, host: &str, path: &str) -> (e: EndpointIdentity)
    ensures
        e.key@ == endpoint_key(method@, host@, path@),
        e.method@ == method@,
        e.host@ == host@,
        e.path_template@ == path_template(path@),
{
    let template = normalize_endpoint_path(path);
    let mut key = chars_of(method);
    key.push(' ');
    extend_str(&mut key, host);
    extend_str(&mut key, template.as_str());
    EndpointIdentity {
        key: string_of(&key),
        method: owned(method),
        host: owned(host),
        path_template: template,
    }
}

/// The path template of a flow's request path.
pub fn normalized_path_for_flow(flow: &FlowSummary) -> (r: String)
    ensures
        r@ == path_template(flow.path@),
{
    normalize_endpoint_path(flow.path.as_str())
}

} // verus!
