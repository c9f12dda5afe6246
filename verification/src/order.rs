//! The order of texts: character by character, a proper prefix first.

use crate::text::{same_text, texts};
use vstd::prelude::*;

verus! {

/// True when `a` comes before `b`: at the first place where they differ `a`
/// has the lower character, or `a` ends there and `b` does not.
pub open spec fn text_lt(a: Seq<char>, b: Seq<char>) -> bool
    decreases a.len(),
{
    if b.len() == 0 {
        false
    } else if a.len() == 0 {
        true
    } else if a[0] != b[0] {
        (a[0] as int) < (b[0] as int)
    } else {
        text_lt(a.drop_first(), b.drop_first())
    }
}

/// No text comes before itself.
pub proof fn lemma_text_lt_irreflexive(a: Seq<char>)
    ensures
        !text_lt(a, a),
    decreases a.len(),
{
    if a.len() > 0 {
        lemma_text_lt_irreflexive(a.drop_first());
    }
}

/// Of two different texts one comes before the other.
pub proof fn lemma_text_lt_total(a: Seq<char>, b: Seq<char>)
    requires
        a != b,
    ensures
        text_lt(a, b) || text_lt(b, a),
    decreases a.len(),
{
    if a.len() > 0 && b.len() > 0 {
        if a[0] == b[0] {
            if a.drop_first() == b.drop_first() {
                assert(a =~= seq![a[0]] + a.drop_first());
                assert(b =~= seq![b[0]] + b.drop_first());
            }
            lemma_text_lt_total(a.drop_first(), b.drop_first());
        }
    } else if a.len() == 0 && b.len() == 0 {
        assert(a =~= b);
    }
}

/// What comes before a text comes before everything that the text comes before.
pub proof fn lemma_text_lt_transitive(a: Seq<char>, b: Seq<char>, c: Seq<char>)
    requires
        text_lt(a, b),
        text_lt(b, c),
    ensures
        text_lt(a, c),
    decreases a.len(),
{
    if a.len() > 0 && a[0] == b[0] && b[0] == c[0] {
        lemma_text_lt_transitive(a.drop_first(), b.drop_first(), c.drop_first());
    }
}

/// Texts that agree on their first `k` characters are ordered as their rests are.
pub proof fn lemma_text_lt_skips_common_prefix(a: Seq<char>, b: Seq<char>, k: int)
    requires
        0 <= k <= a.len(),
        k <= b.len(),
        a.subrange(0, k) == b.subrange(0, k),
    ensures
        text_lt(a, b) == text_lt(a.skip(k), b.skip(k)),
    decreases k,
{
    if k == 0 {
        assert(a.skip(0) =~= a);
        assert(b.skip(0) =~= b);
    } else {
        assert(a[0] == a.subrange(0, k)[0]);
        assert(b[0] == b.subrange(0, k)[0]);
        assert(a.drop_first().subrange(0, k - 1) =~= a.subrange(0, k).drop_first());
        assert(b.drop_first().subrange(0, k - 1) =~= b.subrange(0, k).drop_first());
        lemma_text_lt_skips_common_prefix(a.drop_first(), b.drop_first(), k - 1);
        assert(a.drop_first().skip(k - 1) =~= a.skip(k));
        assert(b.drop_first().skip(k - 1) =~= b.skip(k));
    }
}

/// True when `a` comes before `b`.
pub fn text_less(a: &str, b: &str) -> (less: bool)
    ensures
        less == text_lt(a@, b@),
{
    let n = a.unicode_len();
    let m = b.unicode_len();
    let mut i: usize = 0;
    assert(a@.subrange(0, 0) =~= b@.subrange(0, 0));
    while i < n && i < m
        invariant
            n == a@.len(),
            m == b@.len(),
            i <= n,
            i <= m,
            a@.subrange(0, i as int) == b@.subrange(0, i as int),
        decreases n - i,
    {
        let x = a.get_char(i);
        let y = b.get_char(i);
        proof {
            lemma_text_lt_skips_common_prefix(a@, b@, i as int);
            assert(a@.skip(i as int)[0] == x);
            assert(b@.skip(i as int)[0] == y);
        }
        if x != y {
            return (x as u32) < (y as u32);
        }
        assert(a@.subrange(0, i + 1) =~= a@.subrange(0, i as int).push(x));
        assert(b@.subrange(0, i + 1) =~= b@.subrange(0, i as int).push(y));
        i += 1;
    }
    proof {
        lemma_text_lt_skips_common_prefix(a@, b@, i as int);
    }
    i < m
}

/// True when each text comes before the next.
pub open spec fn is_ascending(s: Seq<Seq<char>>) -> bool {
    forall|i: int, j: int| 0 <= i < j < s.len() ==> text_lt(#[trigger] s[i], #[trigger] s[j])
}

/// Puts `x` into an ascending sequence at its place, unless it is there already.
pub fn insert_distinct(v: &mut Vec<String>, x: &str)
    requires
        is_ascending(texts(old(v)@)),
    ensures
        is_ascending(texts(final(v)@)),
        forall|t: Seq<char>|
            texts(final(v)@).contains(t) <==> (texts(old(v)@).contains(t) || t == x@),
{
    let ghost before = texts(v@);
    let mut p: usize = 0;
    while p < v.len() && text_less(v[p].as_str(), x)
        invariant
            p <= v.len(),
            v@ == old(v)@,
            before == texts(v@),
            forall|j: int| 0 <= j < p ==> text_lt(#[trigger] before[j], x@),
        decreases v.len() - p,
    {
        p += 1;
    }
    let present = p < v.len() && same_text(v[p].as_str(), x);
    if present {
        assert(before[p as int] == x@);
        assert(before.contains(x@));
        return ;
    }
    v.insert(p, String::from_str(x));
    proof {
        let after = texts(v@);
        assert(after =~= before.insert(p as int, x@));
        if p < before.len() {
            lemma_text_lt_total(before[p as int], x@);
        }
        assert forall|i: int, j: int| 0 <= i < j < after.len() implies text_lt(
            #[trigger] after[i],
            #[trigger] after[j],
        ) by {
            if j < p {
                assert(after[i] == before[i] && after[j] == before[j]);
            } else if j == p {
                assert(after[i] == before[i]);
            } else if i < p {
                assert(after[i] == before[i] && after[j] == before[j - 1]);
                lemma_text_lt_transitive(before[i], x@, before[p as int]);
                if j - 1 > p {
                    lemma_text_lt_transitive(before[i], before[p as int], before[j - 1]);
                }
            } else if i == p {
                assert(after[j] == before[j - 1]);
                if j - 1 > p {
                    lemma_text_lt_transitive(x@, before[p as int], before[j - 1]);
                }
            } else {
                assert(after[i] == before[i - 1] && after[j] == before[j - 1]);
            }
        }
        assert forall|t: Seq<char>| after.contains(t) <==> (before.contains(t) || t == x@) by {
            if before.contains(t) {
                let w = choose|w: int| 0 <= w < before.len() && before[w] == t;
                if w < p {
                    assert(after[w] == t);
                } else {
                    assert(after[w + 1] == t);
                }
            }
            if t == x@ {
                assert(after[p as int] == t);
            }
            if after.contains(t) {
                let w = choose|w: int| 0 <= w < after.len() && after[w] == t;
                if w < p {
                    assert(before[w] == t);
                } else if w > p {
                    assert(before[w - 1] == t);
                }
            }
        }
    }
}

/// Two ascending sequences that hold the same texts are the same sequence.
pub proof fn lemma_ascending_is_unique(s: Seq<Seq<char>>, t: Seq<Seq<char>>)
    requires
        is_ascending(s),
        is_ascending(t),
        forall|x: Seq<char>| s.contains(x) <==> t.contains(x),
    ensures
        s == t,
    decreases s.len(),
{
    if s.len() == 0 {
        if t.len() > 0 {
            assert(t.contains(t[0]));
        }
        assert(s =~= t);
    } else if t.len() == 0 {
        assert(s.contains(s[0]));
    } else {
        // The greatest text of each is its last, so the two last texts agree.
        let a = s.last();
        let b = t.last();
        assert(s.contains(a)) by {
            assert(s[s.len() - 1] == a);
        }
        assert(t.contains(b)) by {
            assert(t[t.len() - 1] == b);
        }
        let ia = choose|i: int| 0 <= i < t.len() && t[i] == a;
        let ib = choose|i: int| 0 <= i < s.len() && s[i] == b;
        lemma_text_lt_irreflexive(a);
        lemma_text_lt_irreflexive(b);
        if a != b {
            assert(ia < t.len() - 1);
            assert(ib < s.len() - 1);
            assert(text_lt(t[ia], t[t.len() - 1]));
            assert(text_lt(s[ib], s[s.len() - 1]));
            lemma_text_lt_transitive(a, b, a);
        }
        let s0 = s.drop_last();
        let t0 = t.drop_last();
        assert forall|x: Seq<char>| s0.contains(x) <==> t0.contains(x) by {
            if s0.contains(x) {
                let w = choose|w: int| 0 <= w < s0.len() && s0[w] == x;
                assert(s[w] == x);
                assert(text_lt(s[w], s[s.len() - 1]));
                assert(s.contains(x));
                let u = choose|u: int| 0 <= u < t.len() && t[u] == x;
                if u == t.len() - 1 {
                    lemma_text_lt_irreflexive(x);
                }
                assert(t0[u] == x);
            }
            if t0.contains(x) {
                let w = choose|w: int| 0 <= w < t0.len() && t0[w] == x;
                assert(t[w] == x);
                assert(text_lt(t[w], t[t.len() - 1]));
                assert(t.contains(x));
                let u = choose|u: int| 0 <= u < s.len() && s[u] == x;
                if u == s.len() - 1 {
                    lemma_text_lt_irreflexive(x);
                }
                assert(s0[u] == x);
            }
        }
        assert(is_ascending(s0)) by {
            assert forall|i: int, j: int| 0 <= i < j < s0.len() implies text_lt(
                #[trigger] s0[i],
                #[trigger] s0[j],
            ) by {
                assert(s0[i] == s[i] && s0[j] == s[j]);
            }
        }
        assert(is_ascending(t0)) by {
            assert forall|i: int, j: int| 0 <= i < j < t0.len() implies text_lt(
                #[trigger] t0[i],
                #[trigger] t0[j],
            ) by {
                assert(t0[i] == t[i] && t0[j] == t[j]);
            }
        }
        lemma_ascending_is_unique(s0, t0);
        assert(s =~= s0.push(a));
        assert(t =~= t0.push(b));
    }
}

} // verus!
