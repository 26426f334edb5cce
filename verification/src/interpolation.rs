//! `{{variable}}` templates filled from the active environment.
use vstd::prelude::*;

use crate::model::AppError;
use crate::order::{sorted_unique, string_views, strictly_sorted};
use crate::text::{
    chars_of, extend_chars, extend_str, find_exec, find_from, lemma_find_from_skip, lemma_find_from_some,
    slice_chars, string_of, trim, trim_chars,
};

verus! {

/// A variable's value and whether it is a secret.
#[derive(Debug, Clone, PartialEq, Eq)]
pub struct VariableEntry {
    pub key: String,
    pub value: String,
    pub secret: bool,
}

/// The values a template may refer to, by key. A later entry for a key
/// replaces an earlier one.
#[derive(Debug, Clone, PartialEq, Eq)]
pub struct VariableMap {
    entries: Vec<VariableEntry>,
}

pub open spec fn entry_view(e: VariableEntry) -> (Seq<char>, Seq<char>, bool) {
    (e.key@, e.value@, e.secret)
}

/// The value bound to `key`: that of the last entry with this key.
pub open spec fn lookup(entries: Seq<(Seq<char>, Seq<char>, bool)>, key: Seq<char>) -> Option<
    (Seq<char>, bool),
>
    decreases entries.len(),
{
    if entries.len() == 0 {
        None
    } else if entries.last().0 == key {
        Some((entries.last().1, entries.last().2))
    } else {
        lookup(entries.drop_last(), key)
    }
}

impl View for VariableMap {
    type V = Seq<(Seq<char>, Seq<char>, bool)>;

    closed spec fn view(&self) -> Seq<(Seq<char>, Seq<char>, bool)> {
        self.entries@.map_values(|e: VariableEntry| entry_view(e))
    }
}

impl VariableMap {
    pub fn new() -> (m: Self)
        ensures
            forall|k: Seq<char>| lookup(m@, k) is None,
    {
        VariableMap { entries: Vec::new() }
    }

    /// Binds `key` to `value`, replacing any earlier binding.
    pub fn insert(&mut self, key: String, value: String, secret: bool)
        ensures
            lookup(final(self)@, key@) == Some((value@, secret)),
            forall|k: Seq<char>| k != key@ ==> lookup(final(self)@, k) == lookup(old(self)@, k),
    {
        let ghost old_view = self@;
        let ghost kv = key@;
        self.entries.push(VariableEntry { key, value, secret });
        assert(self@.drop_last() =~= old_view);
    }

    /// The value bound to `key`, if any.
    pub fn get(&self, key: &Vec<char>) -> (r: Option<(&String, bool)>)
        ensures
            match r {
                Some((v, s)) => lookup(self@, key@) == Some((v@, s)),
                None => lookup(self@, key@) is None,
            },
    {
        let mut j = self.entries.len();
        assert(self@.len() == self.entries@.len());
        assert(self@.take(j as int) == self@);
        while j > 0
            invariant
                j <= self.entries@.len(),
                self@.len() == self.entries@.len(),
                lookup(self@, key@) == lookup(self@.take(j as int), key@),
            decreases j,
        {
            let e = &self.entries[j - 1];
            let k = chars_of(e.key.as_str());
            assert(self@.take(j as int).last() == entry_view(*e));
            assert(self@.take(j as int).drop_last() == self@.take(j - 1));
            if crate::text::chars_eq(&k, key) {
                return Some((&e.value, e.secret));
            }
            j = j - 1;
        }
        None
    }
}

pub open spec fn closing() -> Seq<char> {
    seq!['}', '}']
}

/// Filling `s` from `vals`: the text produced, whether a secret value was
/// used, and the keys of the placeholders that had no value, in order.
///
/// A placeholder starts with `{{` and ends at the first `}}` after it; its
/// key is the trimmed text in between. A placeholder without a value is left
/// in place; `{{` without a later `}}` is plain text.
pub open spec fn interp(s: Seq<char>, vals: Seq<(Seq<char>, Seq<char>, bool)>) -> (
    Seq<char>,
    bool,
    Seq<Seq<char>>,
)
    decreases s.len(),
{
    if s.len() == 0 {
        (Seq::empty(), false, Seq::empty())
    } else if s.len() >= 2 && s[0] == '{' && s[1] == '{' && find_from(s, closing(), 2) is Some {
        let end = find_from(s, closing(), 2)->0;
        proof {
            lemma_find_from_some(s, closing(), 2);
        }
        let key = trim(s.subrange(2, end));
        let rest = interp(s.skip(end + 2), vals);
        match lookup(vals, key) {
            Some(v) => (v.0 + rest.0, v.1 || rest.1, rest.2),
            None => (s.take(end + 2) + rest.0, rest.1, seq![key] + rest.2),
        }
    } else {
        let rest = interp(s.drop_first(), vals);
        (seq![s[0]] + rest.0, rest.1, rest.2)
    }
}

/// Filling a template depends on the values only through what each key
/// looks up to.
pub proof fn lemma_interp_same_lookup(
    s: Seq<char>,
    a: Seq<(Seq<char>, Seq<char>, bool)>,
    b: Seq<(Seq<char>, Seq<char>, bool)>,
)
    requires
        forall|k: Seq<char>| lookup(a, k) == lookup(b, k),
    ensures
        interp(s, a) == interp(s, b),
    decreases s.len(),
{
    if s.len() == 0 {
    } else if s.len() >= 2 && s[0] == '{' && s[1] == '{' && find_from(s, closing(), 2) is Some {
        let end = find_from(s, closing(), 2)->0;
        lemma_find_from_some(s, closing(), 2);
        lemma_interp_same_lookup(s.skip(end + 2), a, b);
    } else {
        lemma_interp_same_lookup(s.drop_first(), a, b);
    }
}

#[derive(Debug, Clone, PartialEq, Eq)]
pub struct InterpolationResult {
    pub value: String,
    pub used_secret: bool,
    pub missing_variables: Vec<String>,
}

/// Fills every `{{key}}` placeholder of `template` with the value bound to
/// its trimmed key. Placeholders without a value stay as they are and their
/// keys are reported, sorted and without duplicates; `used_secret` tells
/// whether a secret value went into the result.
pub fn interpolate(template: &str, values: &VariableMap) -> (r: InterpolationResult)
    ensures
        r.value@ == interp(template@, values@).0,
        r.used_secret == interp(template@, values@).1,
        strictly_sorted(string_views(r.missing_variables@)),
        string_views(r.missing_variables@).to_set() == interp(template@, values@).2.to_set(),
{
    let chars = chars_of(template);
    let close = chars_of("}}");
    proof {
        reveal_strlit("}}");
        assert(close@ =~= closing());
    }
    let ghost full = interp(chars@, values@);
    let mut output: Vec<char> = Vec::new();
    let mut missing: Vec<String> = Vec::new();
    let mut used_secret = false;
    let mut index: usize = 0;
    assert(chars@.skip(0) == chars@);
    while index < chars.len()
        invariant
            close@ == closing(),
            index <= chars@.len(),
            full == interp(chars@, values@),
            full.0 == output@ + interp(chars@.skip(index as int), values@).0,
            full.1 == (used_secret || interp(chars@.skip(index as int), values@).1),
            full.2 == string_views(missing@) + interp(chars@.skip(index as int), values@).2,
        decreases chars@.len() - index,
    {
        let ghost rest = chars@.skip(index as int);
        let mut handled = false;
        if index + 1 < chars.len() && chars[index] == '{' && chars[index + 1] == '{' {
            let found = find_exec(&chars, &close, index + 2);
            proof {
                lemma_find_from_skip(chars@, closing(), index as int, 2);
            }
            match found {
                Some(end) => {
                    proof {
                        lemma_find_from_some(chars@, closing(), index + 2);
                        assert(rest[0] == '{' && rest[1] == '{');
                        assert(find_from(rest, closing(), 2) == Some(end - index));
                        assert(rest.subrange(2, end - index) == chars@.subrange(index + 2, end as int));
                        assert(rest.skip(end - index + 2) == chars@.skip(end + 2));
                        assert(rest.take(end - index + 2) == chars@.subrange(index as int, end + 2));
                    }
                    let inner = slice_chars(&chars, index + 2, end);
                    let key = trim_chars(&inner);
                    match values.get(&key) {
                        Some((value, secret)) => {
                            extend_str(&mut output, value.as_str());
                            used_secret = used_secret || secret;
                        },
                        None => {
                            let whole = slice_chars(&chars, index, end + 2);
                            extend_chars(&mut output, &whole);
                            let ghost before = string_views(missing@);
                            missing.push(string_of(&key));
                            assert(string_views(missing@) == before.push(key@));
                            assert(before.push(key@) + interp(chars@.skip(end + 2), values@).2
                                =~= before + (seq![key@] + interp(chars@.skip(end + 2), values@).2));
                        },
                    }
                    index = end + 2;
                    handled = true;
                },
                None => {
                    assert(find_from(rest, closing(), 2) is None);
                },
            }
        }
        if !handled {
            let c = chars[index];
            output.push(c);
            proof {
                assert(rest[0] == c);
                assert(rest.drop_first() == chars@.skip(index + 1));
            }
            index = index + 1;
        }
    }
    assert(chars@.skip(index as int).len() == 0);
    assert(output@ + Seq::<char>::empty() == output@);
    assert(string_views(missing@) + Seq::<Seq<char>>::empty() == string_views(missing@));
    let sorted = sorted_unique(&missing);
    InterpolationResult { value: string_of(&output), used_secret, missing_variables: sorted }
}

/// A template without `{{` comes back unchanged, with no secret used and no
/// key missing.
pub proof fn interpolation_without_placeholders_is_identity(
    s: Seq<char>,
    vals: Seq<(Seq<char>, Seq<char>, bool)>,
)
    requires
        forall|i: int| 0 <= i < s.len() - 1 ==> !(s[i] == '{' && #[trigger] s[i + 1] == '{'),
    ensures
        interp(s, vals) == (s, false, Seq::<Seq<char>>::empty()),
    decreases s.len(),
{
    if s.len() > 0 {
        let t = s.drop_first();
        assert forall|i: int| 0 <= i < t.len() - 1 implies !(t[i] == '{' && #[trigger] t[i + 1] == '{') by {
            assert(t[i] == s[i + 1]);
            assert(t[i + 1] == s[i + 2]);
        }
        interpolation_without_placeholders_is_identity(t, vals);
        assert(seq![s[0]] + t =~= s);
    }
}

/// Ok when no variable is missing; otherwise an error naming them.
pub fn ensure_variables_resolved(missing: &Vec<String>) -> (r: Result<(), AppError>)
    ensures
        r is Ok <==> missing@.len() == 0,
        r matches Err(e) ==> e.code@ == "environment_variables_missing"@ && e.recoverable,
{
    if missing.len() == 0 {
        return Ok(());
    }
    let mut message = chars_of("Missing active-environment variables: ");
    for i in 0..missing.len() {
        if i > 0 {
            extend_str(&mut message, ", ");
        }
        extend_str(&mut message, missing[i].as_str());
    }
    let text = string_of(&message);
    Err(AppError::new("environment_variables_missing", text.as_str(), true))
}

} // verus!
