//! Placeholder replacement as one left-to-right substitution: when keys and
//! values hold no `<` or `>`, and no `<` of the text stands between a `<<<`
//! and the next `>>>`, replacing the parameters one after the other does not
//! depend on their order, and doing it twice changes nothing more.
use vstd::prelude::*;

use crate::expand::{arm_text, display, placeholder, replace_params};
use crate::params::{has_key, key_index, key_set, keys_unique, lemma_key_index, Pairs};
use crate::text::{lemma_replace_absent, replace_all, starts_with};

verus! {

/// `t` holds no `<` and no `>`.
pub open spec fn plain(t: Seq<char>) -> bool {
    forall|i: int| 0 <= i < t.len() ==> #[trigger] t[i] != '<' && t[i] != '>'
}

/// Every key and every value is plain.
pub open spec fn pairs_plain(ps: Pairs) -> bool {
    forall|i: int| 0 <= i < ps.len() ==> plain(#[trigger] ps[i].0) && plain(ps[i].1)
}

/// `e` is one of the pairs of `ps`.
pub open spec fn has_pair(ps: Pairs, e: (Seq<char>, Seq<char>)) -> bool {
    exists|i: int| 0 <= i < ps.len() && ps[i] == e
}

/// `p` occurs in `s` at position `i`.
pub open spec fn occurs_at(s: Seq<char>, i: int, p: Seq<char>) -> bool {
    0 <= i && i + p.len() <= s.len() && s.subrange(i, i + p.len()) == p
}

pub open spec fn open3() -> Seq<char> {
    seq!['<', '<', '<']
}

pub open spec fn close3() -> Seq<char> {
    seq!['>', '>', '>']
}

/// No `<` stands between the end of a `<<<` and the next `>>>`.
pub open spec fn brackets_closed(s: Seq<char>) -> bool {
    forall|i: int, m: int, j: int|
        #![trigger occurs_at(s, i, open3()), s[m], occurs_at(s, j, close3())]
        occurs_at(s, i, open3()) && i + 3 <= m < j && s[m] == '<' && occurs_at(s, j, close3())
            ==> exists|j2: int| i + 3 <= j2 < m && #[trigger] occurs_at(s, j2, close3())
}

/// The parameter whose placeholder starts `s` (the last one that does).
pub open spec fn match_at(s: Seq<char>, ps: Pairs) -> Option<(Seq<char>, Seq<char>)>
    decreases ps.len(),
{
    if ps.len() == 0 {
        None
    } else if starts_with(s, placeholder(ps.last().0)) {
        Some(ps.last())
    } else {
        match_at(s, ps.drop_last())
    }
}

/// One left-to-right pass: where a placeholder of a parameter starts, its
/// value is written and the placeholder skipped; any other character is kept.
pub open spec fn subst(s: Seq<char>, ps: Pairs) -> Seq<char>
    decreases s.len(),
{
    if s.len() == 0 {
        s
    } else {
        match match_at(s, ps) {
            Some(e) => if starts_with(s, placeholder(e.0)) {
                e.1 + subst(s.skip(placeholder(e.0).len() as int), ps)
            } else {
                s
            },
            None => seq![s[0]] + subst(s.drop_first(), ps),
        }
    }
}

proof fn lemma_match_at(s: Seq<char>, ps: Pairs)
    ensures
        match_at(s, ps) matches Some(e) ==> has_pair(ps, e) && starts_with(s, placeholder(e.0)),
        match_at(s, ps) is None ==> forall|i: int|
            0 <= i < ps.len() ==> !starts_with(s, placeholder(#[trigger] ps[i].0)),
    decreases ps.len(),
{
    if ps.len() > 0 {
        lemma_match_at(s, ps.drop_last());
        if match_at(s, ps) is None {
            assert forall|i: int| 0 <= i < ps.len() implies !starts_with(
                s,
                placeholder(#[trigger] ps[i].0),
            ) by {
                if i < ps.len() - 1 {
                    assert(ps[i] == ps.drop_last()[i]);
                }
            }
        } else if !starts_with(s, placeholder(ps.last().0)) {
            let e = match_at(s, ps)->0;
            assert(has_pair(ps.drop_last(), e));
            let i = choose|i: int| 0 <= i < ps.drop_last().len() && ps.drop_last()[i] == e;
            assert(ps[i] == e);
            assert(has_pair(ps, e));
        } else {
            assert(ps[ps.len() - 1] == ps.last());
            assert(has_pair(ps, ps.last()));
        }
    }
}

/// Two plain keys whose placeholders both start `s` are the same key.
proof fn lemma_unique_key(s: Seq<char>, k1: Seq<char>, k2: Seq<char>)
    requires
        plain(k1),
        plain(k2),
        starts_with(s, placeholder(k1)),
        starts_with(s, placeholder(k2)),
    ensures
        k1 == k2,
{
    let p1 = placeholder(k1);
    let p2 = placeholder(k2);
    assert forall|i: int| 0 <= i < p1.len() implies s[i] == p1[i] by {
        assert(s.take(p1.len() as int)[i] == s[i]);
    }
    assert forall|i: int| 0 <= i < p2.len() implies s[i] == p2[i] by {
        assert(s.take(p2.len() as int)[i] == s[i]);
    }
    if k1.len() < k2.len() {
        assert(p1[3 + k1.len() as int] == '>');
        assert(p2[3 + k1.len() as int] == k2[k1.len() as int]);
    } else if k2.len() < k1.len() {
        assert(p2[3 + k2.len() as int] == '>');
        assert(p1[3 + k2.len() as int] == k1[k2.len() as int]);
    } else {
        assert forall|i: int| 0 <= i < k1.len() implies k1[i] == k2[i] by {
            assert(p1[3 + i] == k1[i]);
            assert(p2[3 + i] == k2[i]);
        }
        assert(k1 =~= k2);
    }
}

/// With plain, unique keys, the match at the front is the pair of `ps`
/// whose placeholder starts `s`, if any.
proof fn lemma_match_is(s: Seq<char>, ps: Pairs, e: (Seq<char>, Seq<char>))
    requires
        pairs_plain(ps),
        keys_unique(ps),
        has_pair(ps, e),
        starts_with(s, placeholder(e.0)),
    ensures
        match_at(s, ps) == Some(e),
{
    lemma_match_at(s, ps);
    let i = choose|i: int| 0 <= i < ps.len() && ps[i] == e;
    match match_at(s, ps) {
        Some(f) => {
            let j = choose|j: int| 0 <= j < ps.len() && ps[j] == f;
            assert(plain(ps[i].0) && plain(ps[j].0));
            lemma_unique_key(s, e.0, f.0);
            if i != j {
                if i < j {
                    assert(ps[i].0 != ps[j].0);
                } else {
                    assert(ps[j].0 != ps[i].0);
                }
            }
        },
        None => {
            assert(!starts_with(s, placeholder(ps[i].0)));
        },
    }
}

/// Substitution depends only on which pairs there are, not on their order.
proof fn lemma_subst_same_pairs(s: Seq<char>, ps1: Pairs, ps2: Pairs)
    requires
        pairs_plain(ps1),
        pairs_plain(ps2),
        keys_unique(ps1),
        keys_unique(ps2),
        forall|e: (Seq<char>, Seq<char>)| #[trigger] has_pair(ps1, e) == has_pair(ps2, e),
    ensures
        subst(s, ps1) == subst(s, ps2),
    decreases s.len(),
{
    if s.len() > 0 {
        lemma_match_at(s, ps1);
        lemma_match_at(s, ps2);
        match match_at(s, ps1) {
            Some(e) => {
                assert(has_pair(ps1, e));
                lemma_match_is(s, ps2, e);
                lemma_subst_same_pairs(s.skip(placeholder(e.0).len() as int), ps1, ps2);
            },
            None => {
                if let Some(f) = match_at(s, ps2) {
                    assert(has_pair(ps2, f));
                    lemma_match_is(s, ps1, f);
                }
                lemma_subst_same_pairs(s.drop_first(), ps1, ps2);
            },
        }
    }
}

/// Brackets stay closed in every suffix.
proof fn lemma_brackets_skip(s: Seq<char>, n: int)
    requires
        brackets_closed(s),
        0 <= n <= s.len(),
    ensures
        brackets_closed(s.skip(n)),
{
    let t = s.skip(n);
    assert forall|i: int, m: int, j: int|
        #![trigger occurs_at(t, i, open3()), t[m], occurs_at(t, j, close3())]
        occurs_at(t, i, open3()) && i + 3 <= m < j && t[m] == '<' && occurs_at(t, j, close3())
            implies exists|j2: int| i + 3 <= j2 < m && #[trigger] occurs_at(t, j2, close3()) by {
        assert(t.subrange(i, i + 3) =~= s.subrange(i + n, i + n + 3));
        assert(t.subrange(j, j + 3) =~= s.subrange(j + n, j + n + 3));
        assert(t[m] == s[m + n]);
        assert(occurs_at(s, i + n, open3()));
        assert(occurs_at(s, j + n, close3()));
        let j2 = choose|j2: int| i + n + 3 <= j2 < m + n && #[trigger] occurs_at(s, j2, close3());
        assert(t.subrange(j2 - n, j2 - n + 3) =~= s.subrange(j2, j2 + 3));
        assert(occurs_at(t, j2 - n, close3()));
    }
}

/// A front with no `<` is left alone by replacing a placeholder.
proof fn lemma_replace_front(a: Seq<char>, x: Seq<char>, k: Seq<char>, rep: Seq<char>)
    requires
        forall|i: int| 0 <= i < a.len() ==> #[trigger] a[i] != '<',
    ensures
        replace_all(a + x, placeholder(k), rep) == a + replace_all(x, placeholder(k), rep),
    decreases a.len(),
{
    let p = placeholder(k);
    if a.len() == 0 {
        assert(a + x =~= x);
    } else {
        let b = a.drop_first();
        assert forall|i: int| 0 <= i < b.len() implies #[trigger] b[i] != '<' by {
            assert(b[i] == a[i + 1]);
        }
        lemma_replace_front(b, x, k, rep);
        let ax = a + x;
        assert(ax.drop_first() =~= b + x);
        if ax.len() >= p.len() {
            assert(ax.take(p.len() as int)[0] != p[0]);
        } else {
            assert(replace_all(b + x, p, rep) == b + x);
        }
        assert(ax =~= seq![a[0]] + (b + x));
        assert(seq![a[0]] + (b + replace_all(x, p, rep)) =~= a + replace_all(x, p, rep));
    }
}

/// Where the text starts with the placeholder, it is replaced.
proof fn lemma_replace_front_match(x: Seq<char>, k: Seq<char>, rep: Seq<char>)
    ensures
        replace_all(placeholder(k) + x, placeholder(k), rep) == rep + replace_all(
            x,
            placeholder(k),
            rep,
        ),
{
    let p = placeholder(k);
    let s = p + x;
    assert(s.take(p.len() as int) =~= p);
    assert(s.skip(p.len() as int) =~= x);
}

/// The characters of a prefix.
proof fn lemma_prefix_chars(s: Seq<char>, pat: Seq<char>)
    requires
        starts_with(s, pat),
    ensures
        forall|i: int| 0 <= i < pat.len() ==> #[trigger] s[i] == pat[i],
{
    assert forall|i: int| 0 <= i < pat.len() implies #[trigger] s[i] == pat[i] by {
        assert(s.take(pat.len() as int)[i] == s[i]);
    }
}

/// Where the characters of a placeholder of a plain key are `<` and `>`.
proof fn lemma_placeholder_chars(k: Seq<char>)
    requires
        plain(k),
    ensures
        placeholder(k).len() == k.len() + 6,
        forall|i: int| 0 <= i < 3 ==> #[trigger] placeholder(k)[i] == '<',
        forall|i: int| 3 <= i < placeholder(k).len() ==> #[trigger] placeholder(k)[i] != '<',
        forall|i: int|
            0 <= i < placeholder(k).len() && #[trigger] placeholder(k)[i] == '>' ==> i >= 3
                + k.len(),
        forall|i: int|
            placeholder(k).len() - 3 <= i < placeholder(k).len() ==> #[trigger] placeholder(k)[i]
                == '>',
{
    let p = placeholder(k);
    assert forall|i: int| 3 <= i < p.len() implies #[trigger] p[i] != '<' by {
        if i < 3 + k.len() {
            assert(p[i] == k[i - 3]);
        }
    }
    assert forall|i: int| 0 <= i < p.len() && #[trigger] p[i] == '>' implies i >= 3 + k.len() by {
        if 3 <= i < 3 + k.len() {
            assert(p[i] == k[i - 3]);
        }
    }
}

/// No placeholder of a plain key starts strictly inside a placeholder of a
/// plain key at the front of `s`.
proof fn lemma_no_match_inside(s: Seq<char>, k: Seq<char>, f: Seq<char>, q: int)
    requires
        plain(k),
        plain(f),
        starts_with(s, placeholder(k)),
        0 < q < placeholder(k).len(),
    ensures
        !starts_with(s.skip(q), placeholder(f)),
{
    let p = placeholder(k);
    let pf = placeholder(f);
    lemma_prefix_chars(s, p);
    lemma_placeholder_chars(k);
    lemma_placeholder_chars(f);
    if starts_with(s.skip(q), pf) {
        lemma_prefix_chars(s.skip(q), pf);
        if q <= 2 {
            assert(s.skip(q)[3 - q] == pf[3 - q]);
            assert(s[3] == '<');
            assert(p[3] != '<');
        } else {
            assert(s.skip(q)[0] == pf[0]);
            assert(s[q] == '<');
            assert(p[q] != '<');
        }
    }
}

/// With no placeholder starting before `p`, substitution copies the first
/// `p` characters.
proof fn lemma_subst_prefix(s: Seq<char>, ps: Pairs, p: int)
    requires
        0 <= p <= s.len(),
        forall|q: int| 0 <= q < p ==> #[trigger] match_at(s.skip(q), ps) is None,
    ensures
        subst(s, ps) == s.take(p) + subst(s.skip(p), ps),
    decreases p,
{
    if p == 0 {
        assert(s.skip(0) =~= s);
        assert(s.take(0) + subst(s, ps) =~= subst(s, ps));
    } else {
        lemma_subst_prefix(s, ps, p - 1);
        let r = s.skip(p - 1);
        assert(match_at(r, ps) is None);
        assert(r.drop_first() =~= s.skip(p));
        assert(r[0] == s[p - 1]);
        assert(s.take(p - 1) + (seq![s[p - 1]] + subst(s.skip(p), ps)) =~= s.take(p) + subst(
            s.skip(p),
            ps,
        ));
    }
}

/// The first position in `[lo, hi)` where a placeholder starts.
proof fn first_match(s: Seq<char>, ps: Pairs, lo: int, hi: int) -> (p: int)
    requires
        0 <= lo <= hi,
        exists|q: int| lo <= q < hi && #[trigger] match_at(s.skip(q), ps) is Some,
    ensures
        lo <= p < hi,
        match_at(s.skip(p), ps) is Some,
        forall|q: int| lo <= q < p ==> #[trigger] match_at(s.skip(q), ps) is None,
    decreases hi - lo,
{
    if match_at(s.skip(lo), ps) is Some {
        lo
    } else {
        first_match(s, ps, lo + 1, hi)
    }
}

/// The facts about the text that a placeholder of a plain key `f` at `p`
/// gives: a `<` at `p`, a `>>>` at its end, and `<`s up to `p + 2`.
proof fn lemma_placeholder_at(s: Seq<char>, f: Seq<char>, p: int)
    requires
        plain(f),
        0 <= p < s.len(),
        starts_with(s.skip(p), placeholder(f)),
    ensures
        s[p] == '<',
        forall|i: int| p <= i < p + 3 ==> #[trigger] s[i] == '<',
        occurs_at(s, p + placeholder(f).len() - 3, close3()),
        p + placeholder(f).len() - 3 >= p + 3,
{
    let pe = placeholder(f);
    lemma_placeholder_chars(f);
    lemma_prefix_chars(s.skip(p), pe);
    assert forall|i: int| 0 <= i < pe.len() implies #[trigger] s[p + i] == pe[i] by {
        assert(s.skip(p)[i] == s[p + i]);
    }
    assert forall|i: int| p <= i < p + 3 implies #[trigger] s[i] == '<' by {
        assert(s[p + (i - p)] == pe[i - p]);
    }
    let j = p + pe.len() - 3;
    assert(s.subrange(j, j + 3) =~= close3()) by {
        assert forall|i: int| 0 <= i < 3 implies s.subrange(j, j + 3)[i] == close3()[i] by {
            assert(s[p + (pe.len() - 3 + i)] == pe[pe.len() - 3 + i]);
        }
    }
}

/// A placeholder of a plain key cannot start inside the opening of
/// another one that the text begins with, unless a `<` stands between a
/// `<<<` and the next `>>>`.
proof fn lemma_front_contradiction(s: Seq<char>, k: Seq<char>, f: Seq<char>, p: int)
    requires
        brackets_closed(s),
        plain(k),
        plain(f),
        0 < p < placeholder(k).len(),
        p < s.len(),
        forall|i: int| 0 <= i < p ==> #[trigger] s[i] == placeholder(k)[i],
    ensures
        !starts_with(s.skip(p), placeholder(f)),
{
    let q = placeholder(k);
    if starts_with(s.skip(p), placeholder(f)) {
        lemma_placeholder_chars(k);
        lemma_placeholder_at(s, f, p);
        let j = p + placeholder(f).len() - 3;
        assert(s.subrange(0, 3) =~= open3()) by {
            assert forall|i: int| 0 <= i < 3 implies s.subrange(0, 3)[i] == open3()[i] by {
                if i < p {
                    assert(s[i] == q[i]);
                }
            }
        }
        assert(occurs_at(s, 0, open3()));
        assert(occurs_at(s, j, close3()));
        if p < 3 {
            assert(s[3] == '<');
            assert(0 + 3 <= 3 < j);
            assert(exists|j2: int| 0 + 3 <= j2 < 3 && #[trigger] occurs_at(s, j2, close3()));
        } else {
            assert(s[p] == '<');
            assert(0 + 3 <= p < j);
            assert(exists|j2: int| 0 + 3 <= j2 < p && #[trigger] occurs_at(s, j2, close3()));
            let j2 = choose|j2: int| 0 + 3 <= j2 < p && #[trigger] occurs_at(s, j2, close3());
            assert(s.subrange(j2, j2 + 3)[0] == s[j2]);
            if j2 + 3 > p {
                assert(s.subrange(j2, j2 + 3)[p - j2] == s[p]);
            }
            assert(s[j2] == q[j2]);
        }
    }
}

/// Substitution cannot make a placeholder appear at the front.
proof fn lemma_no_new_front(s: Seq<char>, ps: Pairs, k: Seq<char>)
    requires
        brackets_closed(s),
        pairs_plain(ps),
        plain(k),
        match_at(s, ps) is None,
        !starts_with(s, placeholder(k)),
    ensures
        !starts_with(subst(s, ps), placeholder(k)),
{
    let q = placeholder(k);
    let l = q.len() as int;
    let hi = if s.len() < l {
        s.len() as int
    } else {
        l
    };
    if exists|p: int| 0 <= p < hi && #[trigger] match_at(s.skip(p), ps) is Some {
        let p = first_match(s, ps, 0, hi);
        assert(p > 0) by {
            assert(s.skip(0) =~= s);
        }
        lemma_subst_prefix(s, ps, p);
        if starts_with(subst(s, ps), q) {
            let r = s.skip(p);
            lemma_match_at(r, ps);
            let e = match_at(r, ps)->0;
            let ie = choose|i: int| 0 <= i < ps.len() && ps[i] == e;
            assert(plain(ps[ie].0));
            lemma_prefix_chars(subst(s, ps), q);
            assert forall|i: int| 0 <= i < p implies #[trigger] s[i] == q[i] by {
                assert(subst(s, ps)[i] == s.take(p)[i]);
            }
            lemma_front_contradiction(s, k, e.0, p);
        }
    } else {
        lemma_subst_prefix(s, ps, hi);
        if s.len() < l {
            assert(s.skip(hi).len() == 0);
            assert(subst(s, ps).len() == s.len());
        } else {
            if starts_with(subst(s, ps), q) {
                assert(subst(s, ps).take(l) =~= s.take(l));
            }
        }
    }
}

/// Replacing one more, new key after a substitution is a substitution with it.
proof fn lemma_subst_push(s: Seq<char>, ps: Pairs, k: Seq<char>, v: Seq<char>)
    requires
        brackets_closed(s),
        pairs_plain(ps.push((k, v))),
        keys_unique(ps.push((k, v))),
    ensures
        replace_all(subst(s, ps), placeholder(k), v) == subst(s, ps.push((k, v))),
    decreases s.len(),
{
    let ps2 = ps.push((k, v));
    let p = placeholder(k);
    let l = p.len() as int;
    assert(ps2.drop_last() =~= ps);
    assert(ps2.last() == (k, v));
    assert(ps2[ps.len() as int] == (k, v));
    assert(pairs_plain(ps)) by {
        assert forall|i: int| 0 <= i < ps.len() implies plain(#[trigger] ps[i].0) && plain(
            ps[i].1,
        ) by {
            assert(ps[i] == ps2[i]);
        }
    }
    assert(plain(k) && plain(v));
    if s.len() == 0 {
        assert(subst(s, ps) == s);
        assert(subst(s, ps2) == s);
    } else {
        lemma_match_at(s, ps);
        match match_at(s, ps) {
            Some(e) => {
                let i = choose|i: int| 0 <= i < ps.len() && ps[i] == e;
                assert(ps2[i] == e);
                if starts_with(s, p) {
                    assert(plain(ps[i].0));
                    lemma_unique_key(s, e.0, k);
                    assert(ps2[i].0 != ps2[ps.len() as int].0);
                }
                assert(match_at(s, ps2) == Some(e));
                let rest = s.skip(placeholder(e.0).len() as int);
                lemma_brackets_skip(s, placeholder(e.0).len() as int);
                lemma_subst_push(rest, ps, k, v);
                assert(plain(e.1));
                lemma_replace_front(e.1, subst(rest, ps), k, v);
            },
            None => {
                if starts_with(s, p) {
                    assert(match_at(s, ps2) == Some((k, v)));
                    // no placeholder of ps starts inside the placeholder of k
                    assert forall|q: int| 0 <= q < l implies #[trigger] match_at(s.skip(q), ps)
                        is None by {
                        if q == 0 {
                            assert(s.skip(0) =~= s);
                        } else {
                            lemma_match_at(s.skip(q), ps);
                            if let Some(f) = match_at(s.skip(q), ps) {
                                let jf = choose|j: int| 0 <= j < ps.len() && ps[j] == f;
                                assert(plain(ps[jf].0));
                                lemma_no_match_inside(s, k, f.0, q);
                            }
                        }
                    }
                    lemma_subst_prefix(s, ps, l);
                    assert(s.take(l) =~= p);
                    let rest = s.skip(l);
                    lemma_brackets_skip(s, l);
                    lemma_subst_push(rest, ps, k, v);
                    lemma_replace_front_match(subst(rest, ps), k, v);
                } else {
                    assert(match_at(s, ps2) is None);
                    let t = s.drop_first();
                    assert(s.skip(1) =~= t);
                    lemma_brackets_skip(s, 1);
                    lemma_subst_push(t, ps, k, v);
                    lemma_no_new_front(s, ps, k);
                    let x = subst(t, ps);
                    let sx = seq![s[0]] + x;
                    assert(sx.drop_first() =~= x);
                    if sx.len() < l {
                        assert(replace_all(x, p, v) == x);
                        assert(x =~= sx.drop_first());
                        assert(sx =~= seq![s[0]] + x);
                    }
                }
            },
        }
    }
}

proof fn lemma_subst_empty(s: Seq<char>)
    ensures
        subst(s, Seq::empty()) == s,
    decreases s.len(),
{
    if s.len() > 0 {
        lemma_subst_empty(s.drop_first());
        assert(s =~= seq![s[0]] + s.drop_first());
    }
}

/// Replacing the parameters one after the other is the single substitution.
pub proof fn lemma_replace_params_is_subst(s: Seq<char>, ps: Pairs)
    requires
        brackets_closed(s),
        pairs_plain(ps),
        keys_unique(ps),
    ensures
        replace_params(s, ps) == subst(s, ps),
    decreases ps.len(),
{
    if ps.len() == 0 {
        lemma_subst_empty(s);
        assert(ps =~= Seq::<(Seq<char>, Seq<char>)>::empty());
    } else {
        let pre = ps.drop_last();
        assert(pairs_plain(pre)) by {
            assert forall|i: int| 0 <= i < pre.len() implies plain(#[trigger] pre[i].0) && plain(
                pre[i].1,
            ) by {
                assert(pre[i] == ps[i]);
            }
        }
        assert(keys_unique(pre)) by {
            assert forall|i: int, j: int| 0 <= i < j < pre.len() implies pre[i].0 != pre[j].0 by {
                assert(pre[i] == ps[i] && pre[j] == ps[j]);
            }
        }
        lemma_replace_params_is_subst(s, pre);
        assert(pre.push(ps.last()) =~= ps);
        lemma_subst_push(s, pre, ps.last().0, ps.last().1);
    }
}

/// After a substitution no placeholder of a parameter is left.
proof fn lemma_subst_leaves_none(s: Seq<char>, ps: Pairs, k: Seq<char>)
    requires
        brackets_closed(s),
        pairs_plain(ps),
        keys_unique(ps),
        exists|i: int| 0 <= i < ps.len() && ps[i].0 == k,
    ensures
        forall|i: int| !#[trigger] occurs_at(subst(s, ps), i, placeholder(k)),
    decreases s.len(),
{
    let p = placeholder(k);
    let t = subst(s, ps);
    let ik = choose|i: int| 0 <= i < ps.len() && ps[i].0 == k;
    assert(plain(ps[ik].0));
    if s.len() > 0 {
        lemma_match_at(s, ps);
        match match_at(s, ps) {
            Some(e) => {
                let ie = choose|i: int| 0 <= i < ps.len() && ps[i] == e;
                assert(plain(ps[ie].1));
                let rest = s.skip(placeholder(e.0).len() as int);
                lemma_brackets_skip(s, placeholder(e.0).len() as int);
                lemma_subst_leaves_none(rest, ps, k);
                let x = subst(rest, ps);
                assert forall|i: int| !#[trigger] occurs_at(t, i, p) by {
                    if occurs_at(t, i, p) {
                        if i < e.1.len() {
                            assert(t.subrange(i, i + p.len())[0] == t[i]);
                            assert(t[i] == e.1[i]);
                        } else {
                            assert(t.subrange(i, i + p.len()) =~= x.subrange(
                                i - e.1.len(),
                                i - e.1.len() + p.len(),
                            ));
                            assert(occurs_at(x, i - e.1.len(), p));
                        }
                    }
                }
            },
            None => {
                let d = s.drop_first();
                assert(s.skip(1) =~= d);
                lemma_brackets_skip(s, 1);
                lemma_subst_leaves_none(d, ps, k);
                assert(!starts_with(s, placeholder(ps[ik].0)));
                lemma_no_new_front(s, ps, k);
                let x = subst(d, ps);
                assert forall|i: int| !#[trigger] occurs_at(t, i, p) by {
                    if occurs_at(t, i, p) {
                        if i == 0 {
                            assert(t.take(p.len() as int) =~= t.subrange(0, p.len() as int));
                        } else {
                            assert(t.subrange(i, i + p.len()) =~= x.subrange(
                                i - 1,
                                i - 1 + p.len(),
                            ));
                            assert(occurs_at(x, i - 1, p));
                        }
                    }
                }
            },
        }
    }
}

proof fn lemma_replace_params_fixed(t: Seq<char>, ps: Pairs)
    requires
        forall|j: int, i: int|
            0 <= j < ps.len() ==> !#[trigger] occurs_at(t, i, placeholder(#[trigger] ps[j].0)),
    ensures
        replace_params(t, ps) == t,
    decreases ps.len(),
{
    if ps.len() > 0 {
        let pre = ps.drop_last();
        assert forall|j: int, i: int| 0 <= j < pre.len() implies !#[trigger] occurs_at(
            t,
            i,
            placeholder(#[trigger] pre[j].0),
        ) by {
            assert(pre[j] == ps[j]);
        }
        lemma_replace_params_fixed(t, pre);
        let last = ps.last();
        let j = ps.len() - 1;
        assert(ps[j] == last);
        let pat = placeholder(last.0);
        assert forall|i: int| 0 <= i <= t.len() - pat.len() implies #[trigger] t.subrange(
            i,
            i + pat.len(),
        ) != pat by {
            assert(!occurs_at(t, i, placeholder(ps[j].0)));
        }
        lemma_replace_absent(t, pat, last.1);
    }
}

/// When keys and values hold no `<` or `>` and no `<` of the text stands
/// between a `<<<` and the next `>>>`, replacing placeholders gives the same
/// text whatever the order of the parameters.
pub proof fn law_param_order(s: Seq<char>, ps1: Pairs, ps2: Pairs)
    requires
        brackets_closed(s),
        pairs_plain(ps1),
        pairs_plain(ps2),
        keys_unique(ps1),
        keys_unique(ps2),
        forall|e: (Seq<char>, Seq<char>)| #[trigger] has_pair(ps1, e) == has_pair(ps2, e),
    ensures
        replace_params(s, ps1) == replace_params(s, ps2),
{
    lemma_replace_params_is_subst(s, ps1);
    lemma_replace_params_is_subst(s, ps2);
    lemma_subst_same_pairs(s, ps1, ps2);
}

/// Under the same conditions, replacing placeholders a second time changes
/// nothing.
pub proof fn law_param_idempotent(s: Seq<char>, ps: Pairs)
    requires
        brackets_closed(s),
        pairs_plain(ps),
        keys_unique(ps),
    ensures
        replace_params(replace_params(s, ps), ps) == replace_params(s, ps),
{
    lemma_replace_params_is_subst(s, ps);
    let t = subst(s, ps);
    assert forall|j: int, i: int| 0 <= j < ps.len() implies !#[trigger] occurs_at(
        t,
        i,
        placeholder(#[trigger] ps[j].0),
    ) by {
        lemma_subst_leaves_none(s, ps, ps[j].0);
    }
    lemma_replace_params_fixed(t, ps);
}


/// One expansion of an area does not depend on the order of its parameter
/// set: two sets with the same pairs give the same text, when keys and values
/// hold no `<` or `>` and the area's code, its display blocks resolved, has
/// no `<` between a `<<<` and the next `>>>`.
pub proof fn law_arm_order(params: Pairs, code: Seq<char>, item1: Pairs, item2: Pairs)
    requires
        brackets_closed(display(key_set(params).union(key_set(item1)), code)),
        pairs_plain(item1),
        pairs_plain(item2),
        keys_unique(item1),
        keys_unique(item2),
        forall|e: (Seq<char>, Seq<char>)| #[trigger] has_pair(item1, e) == has_pair(item2, e),
    ensures
        arm_text(params, code, item1) == arm_text(params, code, item2),
{
    assert forall|k: Seq<char>| has_key(item1, k) implies has_key(item2, k) by {
        lemma_same_pairs_key(item1, item2, k);
    }
    assert forall|k: Seq<char>| has_key(item2, k) implies has_key(item1, k) by {
        lemma_same_pairs_key(item2, item1, k);
    }
    assert(key_set(item1) =~= key_set(item2));
    law_param_order(display(key_set(params).union(key_set(item1)), code), item1, item2);
}

proof fn lemma_same_pairs_key(a: Pairs, b: Pairs, k: Seq<char>)
    requires
        forall|e: (Seq<char>, Seq<char>)| #[trigger] has_pair(a, e) == has_pair(b, e),
        has_key(a, k),
    ensures
        has_key(b, k),
{
    lemma_key_index(a, k);
    let i = key_index(a, k).unwrap();
    assert(has_pair(a, a[i]));
    assert(has_pair(b, a[i]));
    let j = choose|j: int| 0 <= j < b.len() && b[j] == a[i];
    lemma_key_index(b, k);
    assert(b[j].0 == k);
}

} // verus!
