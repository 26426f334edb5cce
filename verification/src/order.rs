//! The order of strings (`String`'s `Ord`: lexicographic by character) and
//! sorted, duplicate-free lists of strings.
use vstd::prelude::*;

use crate::text::{chars_of, copy_string};

verus! {

/// `a` sorts strictly before `b`.
pub open spec fn seq_lt(a: Seq<char>, b: Seq<char>) -> bool
    decreases a.len(),
{
    if a.len() == 0 {
        b.len() > 0
    } else if b.len() == 0 {
        false
    } else if (a[0] as int) < (b[0] as int) {
        true
    } else if (a[0] as int) > (b[0] as int) {
        false
    } else {
        seq_lt(a.drop_first(), b.drop_first())
    }
}

pub proof fn lemma_seq_lt_irreflexive(a: Seq<char>)
    ensures
        !seq_lt(a, a),
    decreases a.len(),
{
    if a.len() > 0 {
        lemma_seq_lt_irreflexive(a.drop_first());
    }
}

pub proof fn lemma_seq_lt_asymmetric(a: Seq<char>, b: Seq<char>)
    ensures
        !(seq_lt(a, b) && seq_lt(b, a)),
    decreases a.len(),
{
    if a.len() > 0 && b.len() > 0 && a[0] == b[0] {
        lemma_seq_lt_asymmetric(a.drop_first(), b.drop_first());
    }
}

pub proof fn lemma_seq_lt_total(a: Seq<char>, b: Seq<char>)
    ensures
        a == b || seq_lt(a, b) || seq_lt(b, a),
    decreases a.len(),
{
    if a.len() > 0 && b.len() > 0 {
        if (a[0] as int) == (b[0] as int) {
            lemma_seq_lt_total(a.drop_first(), b.drop_first());
            if a.drop_first() == b.drop_first() {
                assert(a[0] == b[0]);
                assert(a =~= seq![a[0]] + a.drop_first());
                assert(b =~= seq![b[0]] + b.drop_first());
            }
        }
    } else if a.len() == 0 && b.len() == 0 {
        assert(a =~= b);
    }
}

pub proof fn lemma_seq_lt_transitive(a: Seq<char>, b: Seq<char>, c: Seq<char>)
    requires
        seq_lt(a, b),
        seq_lt(b, c),
    ensures
        seq_lt(a, c),
    decreases a.len(),
{
    if a.len() > 0 && b.len() > 0 && c.len() > 0 {
        if a[0] == b[0] && b[0] == c[0] {
            lemma_seq_lt_transitive(a.drop_first(), b.drop_first(), c.drop_first());
        }
    }
}

/// Whether `a` sorts strictly before `b`.
pub fn chars_lt(a: &Vec<char>, b: &Vec<char>) -> (r: bool)
    ensures
        r == seq_lt(a@, b@),
{
    let mut i: usize = 0;
    assert(a@.skip(0) == a@);
    assert(b@.skip(0) == b@);
    while i < a.len() && i < b.len()
        invariant
            i <= a@.len(),
            i <= b@.len(),
            a@.take(i as int) == b@.take(i as int),
            seq_lt(a@, b@) == seq_lt(a@.skip(i as int), b@.skip(i as int)),
        decreases a@.len() - i,
    {
        let x = a[i];
        let y = b[i];
        assert(a@.skip(i as int)[0] == x);
        assert(b@.skip(i as int)[0] == y);
        if x < y {
            return true;
        }
        if x > y {
            return false;
        }
        assert(a@.skip(i as int).drop_first() == a@.skip(i + 1));
        assert(b@.skip(i as int).drop_first() == b@.skip(i + 1));
        assert(a@.take(i + 1) == a@.take(i as int).push(x));
        assert(b@.take(i + 1) == b@.take(i as int).push(y));
        i = i + 1;
    }
    i < b.len()
}

/// Whether string `a` sorts strictly before string `b`.
pub fn str_lt(a: &str, b: &str) -> (r: bool)
    ensures
        r == seq_lt(a@, b@),
{
    let x = chars_of(a);
    let y = chars_of(b);
    chars_lt(&x, &y)
}

/// Strictly increasing: sorted and without duplicates.
pub open spec fn strictly_sorted(s: Seq<Seq<char>>) -> bool {
    forall|i: int, j: int| 0 <= i < j < s.len() ==> seq_lt(#[trigger] s[i], #[trigger] s[j])
}

pub open spec fn string_views(v: Seq<String>) -> Seq<Seq<char>> {
    v.map_values(|s: String| s@)
}

/// A strictly sorted sequence is determined by its set of elements.
pub proof fn lemma_strictly_sorted_unique(a: Seq<Seq<char>>, b: Seq<Seq<char>>)
    requires
        strictly_sorted(a),
        strictly_sorted(b),
        a.to_set() == b.to_set(),
    ensures
        a == b,
    decreases a.len(),
{
    if a.len() == 0 {
        if b.len() > 0 {
            assert(b.to_set().contains(b[0]));
        }
        assert(b.len() == 0);
        assert(a =~= b);
    } else if b.len() == 0 {
        assert(a.to_set().contains(a[0]));
    } else {
        // The least elements agree.
        assert(a.to_set().contains(a[0]));
        assert(b.to_set().contains(b[0]));
        let ia = choose|i: int| 0 <= i < a.len() && a[i] == b[0];
        let ib = choose|i: int| 0 <= i < b.len() && b[i] == a[0];
        if a[0] != b[0] {
            if ia > 0 {
                assert(seq_lt(a[0], a[ia]));
            }
            if ib > 0 {
                assert(seq_lt(b[0], b[ib]));
            }
            lemma_seq_lt_asymmetric(a[0], b[0]);
        }
        let ta = a.drop_first();
        let tb = b.drop_first();
        assert forall|x: Seq<char>| ta.to_set().contains(x) <==> tb.to_set().contains(x) by {
            if ta.to_set().contains(x) {
                let k = choose|k: int| 0 <= k < ta.len() && ta[k] == x;
                assert(a[k + 1] == x);
                assert(seq_lt(a[0], x));
                assert(a.to_set().contains(x));
                let m = choose|m: int| 0 <= m < b.len() && b[m] == x;
                if m == 0 {
                    lemma_seq_lt_irreflexive(x);
                }
                assert(tb[m - 1] == x);
            }
            if tb.to_set().contains(x) {
                let k = choose|k: int| 0 <= k < tb.len() && tb[k] == x;
                assert(b[k + 1] == x);
                assert(seq_lt(b[0], x));
                assert(b.to_set().contains(x));
                let m = choose|m: int| 0 <= m < a.len() && a[m] == x;
                if m == 0 {
                    lemma_seq_lt_irreflexive(x);
                }
                assert(ta[m - 1] == x);
            }
        }
        assert(ta.to_set() =~= tb.to_set());
        lemma_strictly_sorted_unique(ta, tb);
        assert(a =~= seq![a[0]] + ta);
        assert(b =~= seq![b[0]] + tb);
    }
}

pub proof fn lemma_insert_to_set<A>(s: Seq<A>, i: int, x: A)
    requires
        0 <= i <= s.len(),
    ensures
        s.insert(i, x).to_set() == s.to_set().insert(x),
{
    let t = s.insert(i, x);
    assert forall|y: A| t.to_set().contains(y) <==> s.to_set().insert(x).contains(y) by {
        if t.to_set().contains(y) {
            let k = choose|k: int| 0 <= k < t.len() && t[k] == y;
            if k < i {
                assert(s[k] == y);
            } else if k > i {
                assert(s[k - 1] == y);
            }
        }
        if s.to_set().contains(y) {
            let k = choose|k: int| 0 <= k < s.len() && s[k] == y;
            if k < i {
                assert(t[k] == y);
            } else {
                assert(t[k + 1] == y);
            }
        }
        if y == x {
            assert(t[i] == x);
        }
    }
    assert(t.to_set() =~= s.to_set().insert(x));
}

pub proof fn lemma_push_to_set<A>(s: Seq<A>, x: A)
    ensures
        s.push(x).to_set() == s.to_set().insert(x),
{
    assert(s.push(x) == s.insert(s.len() as int, x));
    lemma_insert_to_set(s, s.len() as int, x);
}

/// Adds `x` to a strictly sorted list of strings unless it is already there.
pub fn insert_sorted_unique(v: &mut Vec<String>, x: String)
    requires
        strictly_sorted(string_views(old(v)@)),
    ensures
        strictly_sorted(string_views(final(v)@)),
        string_views(final(v)@).to_set() == string_views(old(v)@).to_set().insert(x@),
{
    let ghost start = string_views(v@);
    let xc = chars_of(x.as_str());
    let mut i: usize = 0;
    while i < v.len()
        invariant
            string_views(v@) == start,
            start == string_views(old(v)@),
            strictly_sorted(start),
            xc@ == x@,
            i <= v@.len(),
            forall|j: int| 0 <= j < i ==> seq_lt(#[trigger] start[j], x@),
        decreases v@.len() - i,
    {
        let yc = chars_of(v[i].as_str());
        assert(start[i as int] == v@[i as int]@);
        if !chars_lt(&yc, &xc) {
            if chars_lt(&xc, &yc) {
                v.insert(i, x);
                proof {
                    let nv = string_views(v@);
                    assert(nv =~= start.insert(i as int, x@));
                    assert forall|a: int, b: int| 0 <= a < b < nv.len() implies seq_lt(
                        #[trigger] nv[a],
                        #[trigger] nv[b],
                    ) by {
                        if b < i {
                        } else if a < i && b == i {
                        } else if a < i {
                            assert(nv[b] == start[b - 1]);
                            if a == i - 1 {
                            }
                            if b - 1 > i {
                                lemma_seq_lt_transitive(start[a], start[i as int], start[b - 1]);
                            }
                        } else if a == i {
                            assert(nv[b] == start[b - 1]);
                            if b - 1 > i {
                                lemma_seq_lt_transitive(x@, start[i as int], start[b - 1]);
                            }
                        } else {
                            assert(nv[a] == start[a - 1]);
                            assert(nv[b] == start[b - 1]);
                        }
                    }
                    lemma_insert_to_set(start, i as int, x@);
                }
                return;
            } else {
                proof {
                    lemma_seq_lt_total(yc@, xc@);
                    assert(start.to_set().contains(x@));
                    assert(start.to_set().insert(x@) =~= start.to_set());
                }
                return;
            }
        }
        i = i + 1;
    }
    v.push(x);
    proof {
        let nv = string_views(v@);
        assert(nv =~= start.push(x@));
        assert forall|a: int, b: int| 0 <= a < b < nv.len() implies seq_lt(
            #[trigger] nv[a],
            #[trigger] nv[b],
        ) by {
            if b == start.len() {
            }
        }
        lemma_push_to_set(start, x@);
    }
}

/// Sorts the strings and removes duplicates (`sort` then `dedup`).
pub fn sorted_unique(items: &Vec<String>) -> (r: Vec<String>)
    ensures
        strictly_sorted(string_views(r@)),
        string_views(r@).to_set() == string_views(items@).to_set(),
{
    let mut r: Vec<String> = Vec::new();
    for i in 0..items.len()
        invariant
            strictly_sorted(string_views(r@)),
            string_views(r@).to_set() == string_views(items@.take(i as int)).to_set(),
    {
        let item = copy_string(&items[i]);
        insert_sorted_unique(&mut r, item);
        assert(string_views(items@.take(i + 1)) == string_views(items@.take(i as int)).push(
            items@[i as int]@,
        ));
        proof {
            lemma_push_to_set(string_views(items@.take(i as int)), items@[i as int]@);
        }
    }
    assert(items@.take(items.len() as int) == items@);
    r
}


/// Keeping the elements of a strictly sorted sequence that satisfy a
/// predicate keeps it strictly sorted, and keeps exactly those elements.
pub proof fn lemma_filter_strictly_sorted(s: Seq<Seq<char>>, pred: spec_fn(Seq<char>) -> bool)
    requires
        strictly_sorted(s),
    ensures
        strictly_sorted(s.filter(pred)),
        forall|x: Seq<char>| #[trigger] s.filter(pred).contains(x) <==> (s.contains(x) && pred(x)),
    decreases s.len(),
{
    reveal(Seq::filter);
    if s.len() > 0 {
        let init = s.drop_last();
        assert(strictly_sorted(init));
        lemma_filter_strictly_sorted(init, pred);
        let f = init.filter(pred);
        if pred(s.last()) {
            assert forall|i: int, j: int| 0 <= i < j < f.push(s.last()).len() implies seq_lt(
                #[trigger] f.push(s.last())[i],
                #[trigger] f.push(s.last())[j],
            ) by {
                if j == f.len() {
                    assert(f.contains(f[i]));
                    let k = choose|k: int| 0 <= k < init.len() && init[k] == f[i];
                    assert(s[k] == f[i]);
                }
            }
        }
        assert forall|x: Seq<char>| #[trigger] s.filter(pred).contains(x) <==> (s.contains(x) && pred(x)) by {
            if s.contains(x) && pred(x) {
                let k = choose|k: int| 0 <= k < s.len() && s[k] == x;
                if k < s.len() - 1 {
                    assert(init[k] == x);
                    assert(init.contains(x));
                } else {
                    assert(s.filter(pred) == f.push(s.last()));
                    assert(f.push(s.last())[f.len() as int] == x);
                }
            }
            if s.filter(pred).contains(x) {
                let k = choose|k: int| 0 <= k < s.filter(pred).len() && s.filter(pred)[k] == x;
                if pred(s.last()) && k == f.len() {
                    assert(s[s.len() - 1] == x);
                } else {
                    assert(f[k] == x);
                    assert(f.contains(x));
                    let m = choose|m: int| 0 <= m < init.len() && init[m] == x;
                    assert(s[m] == x);
                }
            }
        }
    }
}


/// `a` sorts before `b` or equals it.
pub open spec fn seq_le(a: Seq<char>, b: Seq<char>) -> bool {
    a == b || seq_lt(a, b)
}

/// Sorted ascending, repeats allowed.
pub open spec fn sorted_le(s: Seq<Seq<char>>) -> bool {
    forall|i: int, j: int| 0 <= i < j < s.len() ==> seq_le(#[trigger] s[i], #[trigger] s[j])
}

pub proof fn lemma_seq_le_transitive(a: Seq<char>, b: Seq<char>, c: Seq<char>)
    requires
        seq_le(a, b),
        seq_le(b, c),
    ensures
        seq_le(a, c),
{
    if a != b && b != c {
        lemma_seq_lt_transitive(a, b, c);
    }
}

/// Two sorted sequences with the same elements, counted with repeats, are
/// the same sequence.
pub proof fn lemma_sorted_multiset_unique(a: Seq<Seq<char>>, b: Seq<Seq<char>>)
    requires
        sorted_le(a),
        sorted_le(b),
        a.to_multiset() == b.to_multiset(),
    ensures
        a == b,
    decreases a.len(),
{
    a.to_multiset_ensures();
    b.to_multiset_ensures();
    assert(a.len() == b.len());
    if a.len() > 0 {
        let x = a.last();
        let y = b.last();
        assert(a.contains(x));
        assert(b.to_multiset().count(x) > 0);
        assert(b.contains(x));
        assert(a.to_multiset().count(y) > 0);
        assert(a.contains(y));
        let i = choose|i: int| 0 <= i < b.len() && b[i] == x;
        let j = choose|j: int| 0 <= j < a.len() && a[j] == y;
        if i < b.len() - 1 {
            assert(seq_le(b[i], b[b.len() - 1]));
        }
        if j < a.len() - 1 {
            assert(seq_le(a[j], a[a.len() - 1]));
        }
        if x != y {
            lemma_seq_lt_asymmetric(x, y);
        }
        assert(x == y);
        let ai = a.drop_last();
        let bi = b.drop_last();
        assert(a == ai.push(x));
        assert(b == bi.push(x));
        ai.to_multiset_ensures();
        bi.to_multiset_ensures();
        assert(ai.to_multiset() =~= a.to_multiset().remove(x)) by {
            assert(a.to_multiset() =~= ai.to_multiset().insert(x));
        }
        assert(bi.to_multiset() =~= b.to_multiset().remove(x)) by {
            assert(b.to_multiset() =~= bi.to_multiset().insert(x));
        }
        assert(sorted_le(ai));
        assert(sorted_le(bi));
        lemma_sorted_multiset_unique(ai, bi);
    } else {
        assert(a =~= b);
    }
}

/// Equality of two lists of strings, element by element.
pub fn strings_eq(a: &Vec<String>, b: &Vec<String>) -> (r: bool)
    ensures
        r == (string_views(a@) == string_views(b@)),
{
    if a.len() != b.len() {
        assert(string_views(a@).len() != string_views(b@).len());
        return false;
    }
    let mut i: usize = 0;
    while i < a.len()
        invariant
            a@.len() == b@.len(),
            i <= a@.len(),
            forall|j: int| 0 <= j < i ==> a@[j]@ == b@[j]@,
        decreases a@.len() - i,
    {
        if !crate::text::str_eq(a[i].as_str(), b[i].as_str()) {
            assert(string_views(a@)[i as int] != string_views(b@)[i as int]);
            return false;
        }
        i = i + 1;
    }
    assert(string_views(a@) =~= string_views(b@));
    true
}

/// The strings in ascending order, repeats kept (`sort`).
pub fn sort_strings(items: &Vec<String>) -> (r: Vec<String>)
    ensures
        sorted_le(string_views(r@)),
        string_views(r@).to_multiset() == string_views(items@).to_multiset(),
{
    let mut r: Vec<String> = Vec::new();
    proof {
        assert(string_views(r@) =~= string_views(items@.take(0)));
    }
    for i in 0..items.len()
        invariant
            sorted_le(string_views(r@)),
            string_views(r@).to_multiset() == string_views(items@.take(i as int)).to_multiset(),
    {
        let x = copy_string(&items[i]);
        let xc = chars_of(x.as_str());
        let ghost rs = string_views(r@);
        let mut j: usize = 0;
        while j < r.len()
            invariant
                rs == string_views(r@),
                xc@ == x@,
                j <= r@.len(),
                forall|k: int| 0 <= k < j ==> seq_le(#[trigger] rs[k], x@),
            ensures
                j <= rs.len(),
                forall|k: int| 0 <= k < j ==> seq_le(#[trigger] rs[k], x@),
                j < rs.len() ==> seq_lt(x@, rs[j as int]),
            decreases r@.len() - j,
        {
            let yc = chars_of(r[j].as_str());
            assert(rs[j as int] == yc@);
            if chars_lt(&xc, &yc) {
                break;
            }
            proof {
                lemma_seq_lt_total(xc@, yc@);
            }
            j = j + 1;
        }
        proof {
            if j < rs.len() {
                assert forall|k: int| j <= k < rs.len() implies seq_le(x@, #[trigger] rs[k]) by {
                    if k > j {
                        assert(seq_le(rs[j as int], rs[k]));
                        lemma_seq_le_transitive(x@, rs[j as int], rs[k]);
                    }
                }
            }
        }
        r.insert(j, x);
        proof {
            let ns = string_views(r@);
            assert(ns =~= rs.insert(j as int, x@));
            assert forall|a: int, b: int| 0 <= a < b < ns.len() implies seq_le(#[trigger] ns[a], #[trigger] ns[b]) by {
                if b < j {
                } else if a < j && b == j {
                } else if a < j {
                    assert(ns[b] == rs[b - 1]);
                    lemma_seq_le_transitive(ns[a], x@, ns[b]);
                } else if a == j {
                    assert(ns[b] == rs[b - 1]);
                } else {
                    assert(ns[a] == rs[a - 1]);
                    assert(ns[b] == rs[b - 1]);
                }
            }
            ns.to_multiset_ensures();
            rs.to_multiset_ensures();
            string_views(items@.take(i as int)).to_multiset_ensures();
            assert(ns.remove(j as int) =~= rs);
            assert(ns[j as int] == x@);
            assert(ns.contains(x@));
            assert(ns.to_multiset().remove(x@) =~= rs.to_multiset());
            assert(ns.to_multiset() =~= rs.to_multiset().insert(x@));
            assert(string_views(items@.take(i + 1)) =~= string_views(items@.take(i as int)).push(items@[i as int]@));
        }
    }
    assert(items@.take(items@.len() as int) == items@);
    r
}


/// The strings of both lists, ascending and without repeats.
pub fn sorted_union(a: &Vec<String>, b: &Vec<String>) -> (r: Vec<String>)
    ensures
        strictly_sorted(string_views(r@)),
        forall|x: Seq<char>| #[trigger] string_views(r@).contains(x) <==> (string_views(a@).contains(x)
            || string_views(b@).contains(x)),
{
    let ghost av = string_views(a@);
    let ghost bv = string_views(b@);
    let mut r: Vec<String> = Vec::new();
    for i in 0..a.len()
        invariant
            av == string_views(a@),
            strictly_sorted(string_views(r@)),
            string_views(r@).to_set() == av.take(i as int).to_set(),
    {
        insert_sorted_unique(&mut r, copy_string(&a[i]));
        assert(av.take(i + 1) == av.take(i as int).push(a@[i as int]@));
        proof {
            lemma_push_to_set(av.take(i as int), a@[i as int]@);
        }
    }
    assert(av.take(a@.len() as int) == av);
    for i in 0..b.len()
        invariant
            av == string_views(a@),
            bv == string_views(b@),
            strictly_sorted(string_views(r@)),
            string_views(r@).to_set() == av.to_set() + bv.take(i as int).to_set(),
    {
        insert_sorted_unique(&mut r, copy_string(&b[i]));
        assert(bv.take(i + 1) == bv.take(i as int).push(b@[i as int]@));
        proof {
            lemma_push_to_set(bv.take(i as int), b@[i as int]@);
            assert(av.to_set() + bv.take(i + 1).to_set() =~= (av.to_set() + bv.take(i as int).to_set()).insert(
                b@[i as int]@,
            ));
        }
    }
    assert(bv.take(b@.len() as int) == bv);
    proof {
        assert forall|x: Seq<char>| #[trigger] string_views(r@).contains(x) <==> (av.contains(x) || bv.contains(x)) by {
            assert(string_views(r@).to_set().contains(x) == string_views(r@).contains(x));
            assert(av.to_set().contains(x) == av.contains(x));
            assert(bv.to_set().contains(x) == bv.contains(x));
        }
    }
    r
}

} // verus!
