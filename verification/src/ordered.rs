//! Sets of strings kept as strictly increasing sequences, in the order of `str`'s
//! `Ord` (byte order of UTF-8, which is the order of code points).
use vstd::prelude::*;
use crate::text::chars_of;
use crate::text::views;

verus! {

/// Lexicographic order on character sequences, characters by code point.
pub open spec fn lex_lt(a: Seq<char>, b: Seq<char>) -> bool
    decreases a.len(),
{
    if a.len() == 0 {
        b.len() > 0
    } else if b.len() == 0 {
        false
    } else if a[0] != b[0] {
        a[0] < b[0]
    } else {
        lex_lt(a.drop_first(), b.drop_first())
    }
}

/// Every element is below every later one.
pub open spec fn strictly_sorted(s: Seq<Seq<char>>) -> bool {
    forall|i: int, j: int| 0 <= i < j < s.len() ==> lex_lt(s[i], s[j])
}

/// Two sequences hold the same elements.
pub open spec fn same_elements(a: Seq<Seq<char>>, b: Seq<Seq<char>>) -> bool {
    forall|x: Seq<char>| a.contains(x) <==> b.contains(x)
}

pub proof fn lemma_lex_irreflexive(a: Seq<char>)
    ensures
        !lex_lt(a, a),
    decreases a.len(),
{
    if a.len() > 0 {
        lemma_lex_irreflexive(a.drop_first());
    }
}

pub proof fn lemma_lex_transitive(a: Seq<char>, b: Seq<char>, c: Seq<char>)
    requires
        lex_lt(a, b),
        lex_lt(b, c),
    ensures
        lex_lt(a, c),
    decreases a.len(),
{
    if a.len() > 0 && b.len() > 0 && c.len() > 0 && a[0] == b[0] && b[0] == c[0] {
        lemma_lex_transitive(a.drop_first(), b.drop_first(), c.drop_first());
    }
}

pub proof fn lemma_lex_total(a: Seq<char>, b: Seq<char>)
    ensures
        a == b || lex_lt(a, b) || lex_lt(b, a),
    decreases a.len(),
{
    if a.len() == 0 {
        if b.len() == 0 {
            assert(a =~= b);
        }
    } else if b.len() == 0 {
    } else if a[0] != b[0] {
    } else {
        lemma_lex_total(a.drop_first(), b.drop_first());
        if a.drop_first() == b.drop_first() {
            assert(a =~= seq![a[0]] + a.drop_first());
            assert(b =~= seq![b[0]] + b.drop_first());
        }
    }
}

/// Growing a prefix by at most one element adds at most that element.
proof fn lemma_take_contains(s: Seq<Seq<char>>, n: int, m: int)
    requires
        0 <= n <= m <= n + 1,
        m <= s.len(),
    ensures
        forall|y: Seq<char>|
            #[trigger] s.take(m).contains(y) <==> (s.take(n).contains(y) || (m == n + 1 && y
                == s[n])),
{
    assert forall|y: Seq<char>|
        #[trigger] s.take(m).contains(y) <==> (s.take(n).contains(y) || (m == n + 1 && y
            == s[n])) by {
        if s.take(m).contains(y) {
            let k = choose|k: int| 0 <= k < s.take(m).len() && s.take(m)[k] == y;
            if k < n {
                assert(s.take(n)[k] == y);
            }
        }
        if s.take(n).contains(y) {
            let k = choose|k: int| 0 <= k < s.take(n).len() && s.take(n)[k] == y;
            assert(s.take(m)[k] == y);
        }
        if m == n + 1 && y == s[n] {
            assert(s.take(m)[n] == y);
        }
    }
}

/// Is `a` below `b` in the order of `lex_lt`?
pub fn string_lt(a: &String, b: &String) -> (r: bool)
    ensures
        r == lex_lt(a@, b@),
{
    let x = chars_of(a.as_str());
    let y = chars_of(b.as_str());
    let mut i: usize = 0;
    assert(x@.skip(0) =~= x@);
    assert(y@.skip(0) =~= y@);
    while i < x.len() && i < y.len() && x[i] == y[i]
        invariant
            i <= x@.len(),
            i <= y@.len(),
            lex_lt(a@, b@) == lex_lt(x@.skip(i as int), y@.skip(i as int)),
            x@ == a@,
            y@ == b@,
        decreases x@.len() - i,
    {
        assert(x@.skip(i as int).drop_first() =~= x@.skip(i + 1));
        assert(y@.skip(i as int).drop_first() =~= y@.skip(i + 1));
        i = i + 1;
    }
    if i == x.len() {
        i < y.len()
    } else if i == y.len() {
        false
    } else {
        x[i] < y[i]
    }
}

/// The union of two strictly increasing lists, strictly increasing.
pub fn merge_unique(a: &Vec<String>, b: &Vec<String>) -> (r: Vec<String>)
    requires
        strictly_sorted(views(a@)),
        strictly_sorted(views(b@)),
    ensures
        strictly_sorted(views(r@)),
        forall|x: Seq<char>|
            views(r@).contains(x) <==> (views(a@).contains(x) || views(b@).contains(x)),
{
    let ghost va = views(a@);
    let ghost vb = views(b@);
    let mut r: Vec<String> = Vec::new();
    let mut i: usize = 0;
    let mut j: usize = 0;
    while i < a.len() || j < b.len()
        invariant
            va == views(a@),
            vb == views(b@),
            strictly_sorted(va),
            strictly_sorted(vb),
            i <= a@.len(),
            j <= b@.len(),
            strictly_sorted(views(r@)),
            r@.len() > 0 && i < a@.len() ==> lex_lt(views(r@).last(), va[i as int]),
            r@.len() > 0 && j < b@.len() ==> lex_lt(views(r@).last(), vb[j as int]),
            forall|x: Seq<char>|
                views(r@).contains(x) <==> (va.take(i as int).contains(x) || vb.take(
                    j as int,
                ).contains(x)),
        decreases a@.len() + b@.len() - i - j,
    {
        let ghost vr = views(r@);
        let take_a;
        let take_b;
        if i < a.len() && j < b.len() {
            if string_lt(&a[i], &b[j]) {
                take_a = true;
                take_b = false;
            } else if string_lt(&b[j], &a[i]) {
                take_a = false;
                take_b = true;
            } else {
                proof {
                    lemma_lex_total(va[i as int], vb[j as int]);
                }
                take_a = true;
                take_b = true;
            }
        } else if i < a.len() {
            take_a = true;
            take_b = false;
        } else {
            take_a = false;
            take_b = true;
        }
        let x = if take_a {
            a[i].clone()
        } else {
            b[j].clone()
        };
        let ghost w = x@;
        proof {
            assert forall|k: int| 0 <= k < vr.len() implies lex_lt(vr[k], w) by {
                if k < vr.len() - 1 {
                    lemma_lex_transitive(vr[k], vr.last(), w);
                }
            }
        }
        r.push(x);
        assert(views(r@) =~= vr.push(w));
        let ghost ni = if take_a {
            i + 1
        } else {
            i as int
        };
        let ghost nj = if take_b {
            j + 1
        } else {
            j as int
        };
        proof {
            assert(va.take(ni) =~= if take_a {
                va.take(i as int).push(va[i as int])
            } else {
                va.take(i as int)
            });
            assert(vb.take(nj) =~= if take_b {
                vb.take(j as int).push(vb[j as int])
            } else {
                vb.take(j as int)
            });
            assert forall|y: Seq<char>| #[trigger] vr.push(w).contains(y) <==> (vr.contains(y)
                || y == w) by {
                if vr.push(w).contains(y) {
                    let k = choose|k: int| 0 <= k < vr.push(w).len() && vr.push(w)[k] == y;
                    if k < vr.len() {
                        assert(vr[k] == y);
                    }
                }
                if vr.contains(y) {
                    let k = choose|k: int| 0 <= k < vr.len() && vr[k] == y;
                    assert(vr.push(w)[k] == y);
                }
                if y == w {
                    assert(vr.push(w)[vr.len() as int] == y);
                }
            }
            lemma_take_contains(va, i as int, ni);
            lemma_take_contains(vb, j as int, nj);
            if take_a && take_b {
                assert(va[i as int] == vb[j as int]);
            }
            if take_a && !take_b && j < b@.len() {
                assert(lex_lt(w, vb[j as int]));
            }
            if take_b && !take_a && i < a@.len() {
                assert(lex_lt(w, va[i as int]));
            }
        }
        if take_a {
            i = i + 1;
        }
        if take_b {
            j = j + 1;
        }
    }
    assert(va.take(a@.len() as int) =~= va);
    assert(vb.take(b@.len() as int) =~= vb);
    r
}

/// The distinct elements of `v[lo..hi]`, strictly increasing.
fn sort_range(v: &Vec<String>, lo: usize, hi: usize) -> (r: Vec<String>)
    requires
        lo <= hi <= v@.len(),
    ensures
        strictly_sorted(views(r@)),
        same_elements(views(r@), views(v@).subrange(lo as int, hi as int)),
    decreases hi - lo,
{
    let ghost s = views(v@).subrange(lo as int, hi as int);
    if hi - lo == 0 {
        let r: Vec<String> = Vec::new();
        assert(views(r@) =~= s);
        r
    } else if hi - lo == 1 {
        let mut r: Vec<String> = Vec::new();
        r.push(v[lo].clone());
        assert(views(r@) =~= s);
        r
    } else {
        let mid = lo + (hi - lo) / 2;
        let left = sort_range(v, lo, mid);
        let right = sort_range(v, mid, hi);
        let r = merge_unique(&left, &right);
        proof {
            let sl = views(v@).subrange(lo as int, mid as int);
            let sr = views(v@).subrange(mid as int, hi as int);
            assert(s =~= sl + sr);
            assert forall|x: Seq<char>| views(r@).contains(x) <==> s.contains(x) by {
                if s.contains(x) {
                    let k = choose|k: int| 0 <= k < s.len() && s[k] == x;
                    if k < sl.len() {
                        assert(sl[k] == x);
                    } else {
                        assert(sr[k - sl.len()] == x);
                    }
                }
                if sl.contains(x) {
                    let k = choose|k: int| 0 <= k < sl.len() && sl[k] == x;
                    assert(s[k] == x);
                }
                if sr.contains(x) {
                    let k = choose|k: int| 0 <= k < sr.len() && sr[k] == x;
                    assert(s[k + sl.len()] == x);
                }
            }
        }
        r
    }
}

/// The distinct elements of `v`, strictly increasing: what sorting `v` and
/// removing repeats gives.
pub fn sorted_unique(v: &Vec<String>) -> (r: Vec<String>)
    ensures
        views(r@) == sorted_set(views(v@)),
        strictly_sorted(views(r@)),
        same_elements(views(r@), views(v@)),
{
    let r = sort_range(v, 0, v.len());
    assert(views(v@).subrange(0, v@.len() as int) =~= views(v@));
    proof {
        lemma_sorted_set(views(r@), views(v@));
    }
    r
}

} // verus!

verus! {

/// The strictly increasing sequence of the elements of `s`.
pub open spec fn sorted_set(s: Seq<Seq<char>>) -> Seq<Seq<char>> {
    choose|r: Seq<Seq<char>>| strictly_sorted(r) && same_elements(r, s)
}

/// Two strictly increasing sequences with the same elements are equal.
pub proof fn lemma_sorted_unique(a: Seq<Seq<char>>, b: Seq<Seq<char>>)
    requires
        strictly_sorted(a),
        strictly_sorted(b),
        same_elements(a, b),
    ensures
        a == b,
    decreases a.len(),
{
    if a.len() == 0 {
        if b.len() > 0 {
            assert(b.contains(b[0]));
        }
        assert(a =~= b);
    } else {
        assert(a.contains(a[0]));
        let j = choose|j: int| 0 <= j < b.len() && b[j] == a[0];
        assert(b.contains(b[0]));
        let k = choose|k: int| 0 <= k < a.len() && a[k] == b[0];
        if j > 0 {
            if k > 0 {
                lemma_lex_transitive(a[0], a[k], b[j]);
                lemma_lex_irreflexive(a[0]);
            } else {
                lemma_lex_irreflexive(b[0]);
            }
        }
        let a1 = a.drop_first();
        let b1 = b.drop_first();
        assert forall|x: Seq<char>| a1.contains(x) <==> b1.contains(x) by {
            if a1.contains(x) {
                let i = choose|i: int| 0 <= i < a1.len() && a1[i] == x;
                assert(a.contains(x));
                let m = choose|m: int| 0 <= m < b.len() && b[m] == x;
                if m == 0 {
                    lemma_lex_irreflexive(a[0]);
                }
                assert(b1[m - 1] == x);
            }
            if b1.contains(x) {
                let i = choose|i: int| 0 <= i < b1.len() && b1[i] == x;
                assert(b.contains(x));
                let m = choose|m: int| 0 <= m < a.len() && a[m] == x;
                if m == 0 {
                    lemma_lex_irreflexive(b[0]);
                }
                assert(a1[m - 1] == x);
            }
        }
        lemma_sorted_unique(a1, b1);
        assert(a =~= seq![a[0]] + a1);
        assert(b =~= seq![b[0]] + b1);
    }
}

/// A strictly increasing sequence with the elements of `s` is `sorted_set(s)`.
pub proof fn lemma_sorted_set(r: Seq<Seq<char>>, s: Seq<Seq<char>>)
    requires
        strictly_sorted(r),
        same_elements(r, s),
    ensures
        r == sorted_set(s),
{
    let c = sorted_set(s);
    assert(strictly_sorted(c) && same_elements(c, s));
    assert(same_elements(r, c));
    lemma_sorted_unique(r, c);
}

/// The elements of `s` joined, `sep` between each two.
pub open spec fn join(s: Seq<Seq<char>>, sep: char) -> Seq<char>
    decreases s.len(),
{
    if s.len() == 0 {
        seq![]
    } else if s.len() == 1 {
        s[0]
    } else {
        join(s.drop_last(), sep).push(sep) + s.last()
    }
}

/// The strings of `v` joined, `sep` between each two.
pub fn join_strings(v: &Vec<String>, sep: char) -> (r: String)
    ensures
        r@ == join(views(v@), sep),
{
    let mut r = String::new();
    let mut i: usize = 0;
    while i < v.len()
        invariant
            i <= v@.len(),
            r@ == join(views(v@).take(i as int), sep),
        decreases v@.len() - i,
    {
        let ghost t = views(v@).take(i + 1);
        assert(t.drop_last() =~= views(v@).take(i as int));
        if i > 0 {
            r.push(sep);
        } else {
            assert(t.len() == 1);
            assert(r@ + t[0] =~= t[0]);
        }
        r.append(v[i].as_str());
        i = i + 1;
    }
    assert(views(v@).take(v@.len() as int) =~= views(v@));
    r
}

} // verus!

verus! {

/// How many leading elements of `r` are below `x`.
pub open spec fn count_below(r: Seq<Seq<char>>, x: Seq<char>) -> int
    decreases r.len(),
{
    if r.len() > 0 && lex_lt(r[0], x) {
        1 + count_below(r.drop_first(), x)
    } else {
        0
    }
}

proof fn lemma_count_below(r: Seq<Seq<char>>, x: Seq<char>)
    requires
        strictly_sorted(r),
        !r.contains(x),
    ensures
        0 <= count_below(r, x) <= r.len(),
        forall|i: int| 0 <= i < count_below(r, x) ==> lex_lt(#[trigger] r[i], x),
        forall|i: int| count_below(r, x) <= i < r.len() ==> lex_lt(x, #[trigger] r[i]),
    decreases r.len(),
{
    if r.len() > 0 {
        let t = r.drop_first();
        assert(!t.contains(x)) by {
            if t.contains(x) {
                let k = choose|k: int| 0 <= k < t.len() && t[k] == x;
                assert(r[k + 1] == x);
            }
        }
        assert(strictly_sorted(t)) by {
            assert forall|i: int, j: int| 0 <= i < j < t.len() implies lex_lt(t[i], t[j]) by {
                assert(t[i] == r[i + 1] && t[j] == r[j + 1]);
            }
        }
        lemma_count_below(t, x);
        if lex_lt(r[0], x) {
            assert forall|i: int| 0 <= i < count_below(r, x) implies lex_lt(#[trigger] r[i], x) by {
                if i > 0 {
                    assert(r[i] == t[i - 1]);
                }
            }
            assert forall|i: int| count_below(r, x) <= i < r.len() implies lex_lt(
                x,
                #[trigger] r[i],
            ) by {
                assert(r[i] == t[i - 1]);
            }
        } else {
            assert(r.contains(r[0]));
            lemma_lex_total(r[0], x);
            assert forall|i: int| 0 <= i < r.len() implies lex_lt(x, #[trigger] r[i]) by {
                if i > 0 {
                    lemma_lex_transitive(x, r[0], r[i]);
                }
            }
        }
    }
}

/// Every sequence has a strictly increasing sequence of its elements:
/// `sorted_set` is one.
pub proof fn sorted_set_is_sorted_and_complete(s: Seq<Seq<char>>)
    ensures
        strictly_sorted(sorted_set(s)),
        same_elements(sorted_set(s), s),
    decreases s.len(),
{
    if s.len() == 0 {
        let e = Seq::<Seq<char>>::empty();
        assert(strictly_sorted(e) && same_elements(e, s));
    } else {
        let rest = s.drop_last();
        let x = s.last();
        sorted_set_is_sorted_and_complete(rest);
        let r0 = sorted_set(rest);
        if r0.contains(x) {
            assert forall|y: Seq<char>| r0.contains(y) <==> s.contains(y) by {
                if rest.contains(y) {
                    let k = choose|k: int| 0 <= k < rest.len() && rest[k] == y;
                    assert(s[k] == y);
                }
                if s.contains(y) {
                    let k = choose|k: int| 0 <= k < s.len() && s[k] == y;
                    if k < rest.len() {
                        assert(rest[k] == y);
                    }
                }
            }
            assert(strictly_sorted(r0) && same_elements(r0, s));
        } else {
            lemma_count_below(r0, x);
            let k = count_below(r0, x);
            let r = r0.take(k).push(x) + r0.skip(k);
            assert(r.len() == r0.len() + 1);
            assert forall|i: int| 0 <= i < r.len() implies #[trigger] r[i] == if i < k {
                r0[i]
            } else if i == k {
                x
            } else {
                r0[i - 1]
            } by {}
            assert forall|i: int, j: int| 0 <= i < j < r.len() implies lex_lt(r[i], r[j]) by {
                if j < k {
                } else if j == k {
                } else if i < k {
                    lemma_lex_transitive(r0[i], x, r0[j - 1]);
                } else if i == k {
                } else {
                }
            }
            assert forall|y: Seq<char>| r.contains(y) <==> s.contains(y) by {
                if r.contains(y) {
                    let m = choose|m: int| 0 <= m < r.len() && r[m] == y;
                    if m == k {
                        assert(s[s.len() - 1] == y);
                    } else {
                        let q = if m < k {
                            m
                        } else {
                            m - 1
                        };
                        assert(r0[q] == y);
                        assert(r0.contains(y));
                        assert(rest.contains(y));
                        let p = choose|p: int| 0 <= p < rest.len() && rest[p] == y;
                        assert(s[p] == y);
                    }
                }
                if s.contains(y) {
                    let p = choose|p: int| 0 <= p < s.len() && s[p] == y;
                    if p == s.len() - 1 {
                        assert(r[k] == y);
                    } else {
                        assert(rest[p] == y);
                        assert(rest.contains(y));
                        assert(r0.contains(y));
                        let q = choose|q: int| 0 <= q < r0.len() && r0[q] == y;
                        if q < k {
                            assert(r[q] == y);
                        } else {
                            assert(r[q + 1] == y);
                        }
                    }
                }
            }
            assert(strictly_sorted(r) && same_elements(r, s));
        }
    }
}

} // verus!
