//! The order of text by character codes, and sequences kept strictly sorted
//! in it.
use crate::resolve::texts;
use vstd::prelude::*;
use vstd::string::*;

verus! {

/// `a` comes before `b` in the order of character codes, a proper prefix
/// first; for text this is the order of `String`'s `Ord`.
pub open spec fn lex_lt(a: Seq<char>, b: Seq<char>) -> bool
    decreases a.len(),
{
    if a.len() == 0 {
        b.len() > 0
    } else if b.len() == 0 {
        false
    } else if a[0] != b[0] {
        (a[0] as u32) < (b[0] as u32)
    } else {
        lex_lt(a.drop_first(), b.drop_first())
    }
}

/// Each element comes before every later one.
pub open spec fn strictly_sorted(s: Seq<Seq<char>>) -> bool {
    forall|i: int, j: int| 0 <= i < j < s.len() ==> lex_lt(s[i], s[j])
}

pub proof fn lemma_lex_irreflexive(a: Seq<char>)
    ensures
        !lex_lt(a, a),
    decreases a.len(),
{
    if a.len() > 0 {
        lemma_lex_irreflexive(a.drop_first());
    }
}

pub proof fn lemma_lex_transitive(a: Seq<char>, b: Seq<char>, c: Seq<char>)
    requires
        lex_lt(a, b),
        lex_lt(b, c),
    ensures
        lex_lt(a, c),
    decreases a.len(),
{
    if a.len() > 0 && b.len() > 0 && c.len() > 0 && a[0] == b[0] && b[0] == c[0] {
        lemma_lex_transitive(a.drop_first(), b.drop_first(), c.drop_first());
    }
}

pub proof fn lemma_lex_total(a: Seq<char>, b: Seq<char>)
    requires
        a != b,
    ensures
        lex_lt(a, b) || lex_lt(b, a),
    decreases a.len(),
{
    if a.len() > 0 && b.len() > 0 {
        if a[0] == b[0] {
            if a.drop_first() == b.drop_first() {
                assert(a =~= seq![a[0]] + a.drop_first());
                assert(b =~= seq![b[0]] + b.drop_first());
            }
            lemma_lex_total(a.drop_first(), b.drop_first());
        } else {
            vstd::utf8::char_u32_cast(a[0], a[0] as u32);
            vstd::utf8::char_u32_cast(b[0], b[0] as u32);
        }
    } else if a.len() == 0 && b.len() == 0 {
        assert(a =~= b);
    }
}

/// Two strictly sorted sequences that hold the same elements are equal.
pub proof fn lemma_sorted_unique(a: Seq<Seq<char>>, b: Seq<Seq<char>>)
    requires
        strictly_sorted(a),
        strictly_sorted(b),
        forall|s: Seq<char>| a.contains(s) <==> b.contains(s),
    ensures
        a == b,
    decreases a.len(),
{
    if a.len() == 0 {
        if b.len() > 0 {
            assert(b.contains(b[0]));
        }
        assert(a =~= b);
    } else if b.len() == 0 {
        assert(a.contains(a[0]));
    } else {
        assert(a.contains(a[0]));
        assert(b.contains(b[0]));
        let j = choose|j: int| 0 <= j < b.len() && b[j] == a[0];
        let k = choose|k: int| 0 <= k < a.len() && a[k] == b[0];
        if j > 0 {
            if k > 0 {
                assert(lex_lt(a[0], a[k]));
                assert(lex_lt(b[0], b[j]));
                lemma_lex_transitive(a[0], a[k], a[0]);
                lemma_lex_irreflexive(a[0]);
            } else {
                assert(lex_lt(b[0], b[j]));
                lemma_lex_irreflexive(a[0]);
            }
        }
        assert(a[0] == b[0]);
        let a1 = a.drop_first();
        let b1 = b.drop_first();
        assert forall|s: Seq<char>| a1.contains(s) <==> b1.contains(s) by {
            if a1.contains(s) {
                let i = choose|i: int| 0 <= i < a1.len() && a1[i] == s;
                assert(lex_lt(a[0], a[i + 1]));
                lemma_lex_irreflexive(s);
                assert(a.contains(s));
                let m = choose|m: int| 0 <= m < b.len() && b[m] == s;
                assert(m != 0);
                assert(b1[m - 1] == s);
            }
            if b1.contains(s) {
                let i = choose|i: int| 0 <= i < b1.len() && b1[i] == s;
                assert(lex_lt(b[0], b[i + 1]));
                lemma_lex_irreflexive(s);
                assert(b.contains(s));
                let m = choose|m: int| 0 <= m < a.len() && a[m] == s;
                assert(m != 0);
                assert(a1[m - 1] == s);
            }
        }
        lemma_sorted_unique(a1, b1);
        assert(a =~= seq![a[0]] + a1);
        assert(b =~= seq![b[0]] + b1);
    }
}

/// Whether `a` comes before `b`.
pub fn less_than(a: &str, b: &str) -> (r: bool)
    ensures
        r == lex_lt(a@, b@),
{
    let n = a.unicode_len();
    let m = b.unicode_len();
    let mut i: usize = 0;
    assert(a@.skip(0) =~= a@);
    assert(b@.skip(0) =~= b@);
    while i < n && i < m
        invariant
            n == a@.len(),
            m == b@.len(),
            i <= n,
            i <= m,
            lex_lt(a@, b@) == lex_lt(a@.skip(i as int), b@.skip(i as int)),
        decreases n - i,
    {
        let ca = a.get_char(i);
        let cb = b.get_char(i);
        if ca != cb {
            return (ca as u32) < (cb as u32);
        }
        assert(a@.skip(i as int).drop_first() =~= a@.skip(i + 1));
        assert(b@.skip(i as int).drop_first() =~= b@.skip(i + 1));
        i = i + 1;
    }
    i < m
}

/// The first place in the strictly sorted `v` whose element does not come
/// before `s`, found by bisection.
fn position(v: &Vec<String>, s: &String) -> (i: usize)
    requires
        strictly_sorted(texts(v@)),
    ensures
        i <= v@.len(),
        forall|k: int| 0 <= k < i ==> lex_lt(v@[k]@, s@),
        forall|k: int| i <= k < v@.len() ==> !lex_lt(v@[k]@, s@),
{
    let mut lo: usize = 0;
    let mut hi: usize = v.len();
    while lo < hi
        invariant
            lo <= hi <= v@.len(),
            strictly_sorted(texts(v@)),
            forall|k: int| 0 <= k < lo ==> lex_lt(v@[k]@, s@),
            forall|k: int| hi <= k < v@.len() ==> !lex_lt(v@[k]@, s@),
        decreases hi - lo,
    {
        let mid = lo + (hi - lo) / 2;
        if less_than(v[mid].as_str(), s.as_str()) {
            assert forall|k: int| 0 <= k <= mid implies lex_lt(v@[k]@, s@) by {
                if k < mid {
                    assert(lex_lt(texts(v@)[k], texts(v@)[mid as int]));
                    lemma_lex_transitive(v@[k]@, v@[mid as int]@, s@);
                }
            }
            lo = mid + 1;
        } else {
            assert forall|k: int| mid <= k < v@.len() implies !lex_lt(v@[k]@, s@) by {
                if k > mid && lex_lt(v@[k]@, s@) {
                    assert(lex_lt(texts(v@)[mid as int], texts(v@)[k]));
                    lemma_lex_transitive(v@[mid as int]@, v@[k]@, s@);
                }
            }
            hi = mid;
        }
    }
    lo
}

/// Whether the strictly sorted `v` holds `s`, found by bisection.
pub fn contains_sorted(v: &Vec<String>, s: &String) -> (r: bool)
    requires
        strictly_sorted(texts(v@)),
    ensures
        r == texts(v@).contains(s@),
{
    let i = position(v, s);
    if i < v.len() && v[i] == *s {
        assert(texts(v@)[i as int] == s@);
        return true;
    }
    assert forall|k: int| 0 <= k < texts(v@).len() implies texts(v@)[k] != s@ by {
        lemma_lex_irreflexive(s@);
        if k > i && texts(v@)[k] == s@ {
            assert(lex_lt(texts(v@)[i as int], texts(v@)[k]));
        }
    }
    false
}

/// The texts of `v`, strictly sorted, each once.
pub fn sorted_set(v: &Vec<String>) -> (r: Vec<String>)
    ensures
        strictly_sorted(texts(r@)),
        forall|t: Seq<char>| texts(r@).contains(t) <==> texts(v@).contains(t),
{
    let mut out: Vec<String> = Vec::new();
    let mut i: usize = 0;
    while i < v.len()
        invariant
            i <= v@.len(),
            strictly_sorted(texts(out@)),
            forall|t: Seq<char>| texts(out@).contains(t) <==> texts(v@.subrange(0, i as int)).contains(t),
        decreases v@.len() - i,
    {
        insert_sorted(&mut out, v[i].clone());
        let ghost a = texts(v@.subrange(0, i as int));
        let ghost b = texts(v@.subrange(0, i + 1));
        assert(b =~= a.push(v@[i as int]@));
        assert forall|t: Seq<char>| b.contains(t) <==> (a.contains(t) || t == v@[i as int]@) by {
            if b.contains(t) {
                let k = choose|k: int| 0 <= k < b.len() && b[k] == t;
                if k < a.len() {
                    assert(a[k] == t);
                }
            }
            if a.contains(t) {
                let k = choose|k: int| 0 <= k < a.len() && a[k] == t;
                assert(b[k] == t);
            }
            if t == v@[i as int]@ {
                assert(b[i as int] == t);
            }
        }
        i = i + 1;
    }
    assert(v@.subrange(0, v@.len() as int) =~= v@);
    out
}

/// Adds `s` to the strictly sorted `v`, which stays strictly sorted.
pub fn insert_sorted(v: &mut Vec<String>, s: String)
    requires
        strictly_sorted(texts(old(v)@)),
    ensures
        strictly_sorted(texts(final(v)@)),
        forall|t: Seq<char>|
            texts(final(v)@).contains(t) <==> (texts(old(v)@).contains(t) || t == s@),
{
    let ghost o = texts(v@);
    let i = position(v, &s);
    if i < v.len() && v[i] == s {
        assert(o[i as int] == s@);
        return;
    }
    let ghost sv = s@;
    v.insert(i, s);
    let ghost w = texts(v@);
    assert(w =~= o.insert(i as int, sv));
    assert forall|p: int, q: int| 0 <= p < q < w.len() implies lex_lt(w[p], w[q]) by {
        if q < i {
        } else if p < i && q == i {
        } else if p < i {
            assert(lex_lt(o[p], o[q - 1]));
        } else if p == i {
            assert(o[i as int] != sv);
            assert(!lex_lt(o[i as int], sv));
            lemma_lex_total(o[i as int], sv);
            if q - 1 > i {
                lemma_lex_transitive(sv, o[i as int], o[q - 1]);
            }
        } else {
            assert(lex_lt(o[p - 1], o[q - 1]));
        }
    }
    assert forall|t: Seq<char>| w.contains(t) <==> (o.contains(t) || t == sv) by {
        if w.contains(t) {
            let k = choose|k: int| 0 <= k < w.len() && w[k] == t;
            if k < i {
                assert(o[k] == t);
            } else if k > i {
                assert(o[k - 1] == t);
            }
        }
        if o.contains(t) {
            let k = choose|k: int| 0 <= k < o.len() && o[k] == t;
            if k < i {
                assert(w[k] == t);
            } else {
                assert(w[k + 1] == t);
            }
        }
        if t == sv {
            assert(w[i as int] == t);
        }
    }
}

} // verus!
