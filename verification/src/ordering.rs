//! Sorting by insertion, stated once for every kind of item.
use vstd::prelude::*;

verus! {

/// `s` with `x` put in before the items at its end that `x` comes before.
pub open spec fn inserted<T>(s: Seq<T>, x: T, before: spec_fn(T, T) -> bool) -> Seq<T>
    decreases s.len(),
{
    if s.len() > 0 && before(x, s.last()) {
        inserted(s.drop_last(), x, before).push(s.last())
    } else {
        s.push(x)
    }
}

/// The items in order; items of which none comes before the other stay as they
/// stood.
pub open spec fn ranked<T>(s: Seq<T>, before: spec_fn(T, T) -> bool) -> Seq<T>
    decreases s.len(),
{
    if s.len() == 0 {
        s
    } else {
        inserted(ranked(s.drop_last(), before), s.last(), before)
    }
}

/// Whether `before` orders items: no item comes before itself or before one
/// that it comes after, and the relation chains.
pub open spec fn orders<T>(before: spec_fn(T, T) -> bool) -> bool {
    &&& forall|a: T, b: T| #[trigger] before(a, b) ==> !before(b, a)
    &&& forall|a: T, b: T, c: T|
        #[trigger] before(a, b) && #[trigger] before(b, c) ==> before(a, c)
    &&& forall|a: T, b: T, c: T|
        !#[trigger] before(a, b) && !#[trigger] before(b, c) ==> !before(a, c)
}

/// Whether no item comes before an earlier one.
pub open spec fn ordered<T>(s: Seq<T>, before: spec_fn(T, T) -> bool) -> bool {
    forall|i: int, j: int| 0 <= i < j < s.len() ==> !before(#[trigger] s[j], #[trigger] s[i])
}

proof fn lemma_inserted<T>(s: Seq<T>, x: T, before: spec_fn(T, T) -> bool)
    requires
        orders(before),
        ordered(s, before),
    ensures
        inserted(s, x, before).len() == s.len() + 1,
        ordered(inserted(s, x, before), before),
        forall|y: T| #[trigger] inserted(s, x, before).contains(y) <==> s.contains(y) || y == x,
    decreases s.len(),
{
    let r = inserted(s, x, before);
    if s.len() > 0 && before(x, s.last()) {
        let t = s.drop_last();
        let m = inserted(t, x, before);
        lemma_inserted(t, x, before);
        assert(r == m.push(s.last()));
        assert forall|i: int, j: int| 0 <= i < j < r.len() implies !before(
            #[trigger] r[j],
            #[trigger] r[i],
        ) by {
            if j == r.len() - 1 {
                assert(m.contains(m[i]));
                if m[i] == x {
                } else {
                    let k = choose|k: int| 0 <= k < t.len() && t[k] == m[i];
                    assert(s[k] == m[i]);
                    assert(!before(s[s.len() - 1], s[k]));
                }
            } else {
                assert(!before(m[j], m[i]));
            }
        }
        assert forall|y: T| #[trigger] r.contains(y) <==> s.contains(y) || y == x by {
            if s.contains(y) {
                let k = choose|k: int| 0 <= k < s.len() && s[k] == y;
                if k < t.len() {
                    assert(t[k] == y);
                    assert(m.contains(y));
                    let n = choose|n: int| 0 <= n < m.len() && m[n] == y;
                    assert(r[n] == y);
                } else {
                    assert(r[r.len() - 1] == y);
                }
            }
            if y == x {
                assert(m.contains(x));
                let n = choose|n: int| 0 <= n < m.len() && m[n] == x;
                assert(r[n] == x);
            }
            if r.contains(y) {
                let n = choose|n: int| 0 <= n < r.len() && r[n] == y;
                if n < m.len() {
                    assert(m.contains(y));
                    if y != x {
                        let k = choose|k: int| 0 <= k < t.len() && t[k] == y;
                        assert(s[k] == y);
                    }
                } else {
                    assert(s[s.len() - 1] == y);
                }
            }
        }
    } else {
        assert forall|i: int, j: int| 0 <= i < j < r.len() implies !before(
            #[trigger] r[j],
            #[trigger] r[i],
        ) by {
            if j == s.len() {
                if i < s.len() - 1 {
                    assert(!before(s[s.len() - 1], s[i]));
                }
            } else {
                assert(!before(s[j], s[i]));
            }
        }
        assert forall|y: T| #[trigger] r.contains(y) <==> s.contains(y) || y == x by {
            if s.contains(y) {
                let k = choose|k: int| 0 <= k < s.len() && s[k] == y;
                assert(r[k] == y);
            }
            if y == x {
                assert(r[s.len() as int] == x);
            }
            if r.contains(y) && y != x {
                let k = choose|k: int| 0 <= k < r.len() && r[k] == y;
                assert(s[k] == y);
            }
        }
    }
}

/// Sorted items are in order, and they are the items that were there.
pub proof fn ranked_is_ordered<T>(s: Seq<T>, before: spec_fn(T, T) -> bool)
    requires
        orders(before),
    ensures
        ranked(s, before).len() == s.len(),
        ordered(ranked(s, before), before),
        forall|y: T| #[trigger] ranked(s, before).contains(y) <==> s.contains(y),
    decreases s.len(),
{
    if s.len() > 0 {
        let t = s.drop_last();
        ranked_is_ordered(t, before);
        lemma_inserted(ranked(t, before), s.last(), before);
        assert forall|y: T| #[trigger] ranked(s, before).contains(y) <==> s.contains(y) by {
            if s.contains(y) {
                let k = choose|k: int| 0 <= k < s.len() && s[k] == y;
                if k < t.len() {
                    assert(t[k] == y);
                    assert(ranked(t, before).contains(y));
                }
            }
            if ranked(s, before).contains(y) && y != s.last() {
                assert(ranked(t, before).contains(y));
                let k = choose|k: int| 0 <= k < t.len() && t[k] == y;
                assert(s[k] == y);
            }
        }
    }
}

/// Where any two items differ in order, the order in which they arrive does not
/// matter: sorting gives the same list.
pub proof fn arrival_does_not_matter<T>(a: Seq<T>, b: Seq<T>, before: spec_fn(T, T) -> bool)
    requires
        orders(before),
        a.len() == b.len(),
        forall|y: T| #[trigger] a.contains(y) <==> b.contains(y),
        forall|x: T, y: T|
            #[trigger] a.contains(x) && #[trigger] a.contains(y) && x != y ==> before(x, y)
                || before(y, x),
        a.no_duplicates(),
        b.no_duplicates(),
    ensures
        ranked(a, before) == ranked(b, before),
{
    ranked_is_ordered(a, before);
    ranked_is_ordered(b, before);
    let x = ranked(a, before);
    let y = ranked(b, before);
    lemma_ranked_unique(a, before);
    lemma_ranked_unique(b, before);
    assert forall|e: T| #[trigger] x.contains(e) <==> y.contains(e) by {
        assert(a.contains(e) <==> b.contains(e));
    }
    assert forall|i: int, j: int| 0 <= i < j < x.len() implies before(
        #[trigger] x[i],
        #[trigger] x[j],
    ) by {
        assert(x.contains(x[i]) && x.contains(x[j]));
        assert(a.contains(x[i]) && a.contains(x[j]));
        assert(x[i] != x[j]);
    }
    assert forall|i: int, j: int| 0 <= i < j < y.len() implies before(
        #[trigger] y[i],
        #[trigger] y[j],
    ) by {
        assert(y.contains(y[i]) && y.contains(y[j]));
        assert(b.contains(y[i]) && b.contains(y[j]));
        assert(a.contains(y[i]) && a.contains(y[j]));
        assert(y[i] != y[j]);
    }
    lemma_strict_unique(x, y, before);
}

proof fn lemma_ranked_unique<T>(s: Seq<T>, before: spec_fn(T, T) -> bool)
    requires
        orders(before),
        s.no_duplicates(),
    ensures
        ranked(s, before).no_duplicates(),
    decreases s.len(),
{
    if s.len() > 0 {
        let t = s.drop_last();
        lemma_ranked_unique(t, before);
        ranked_is_ordered(t, before);
        let r = ranked(t, before);
        assert(!r.contains(s.last())) by {
            if r.contains(s.last()) {
                assert(t.contains(s.last()));
                let k = choose|k: int| 0 <= k < t.len() && t[k] == s.last();
                assert(s[k] == s[s.len() - 1]);
            }
        }
        lemma_inserted_unique(r, s.last(), before);
    }
}

proof fn lemma_inserted_unique<T>(s: Seq<T>, x: T, before: spec_fn(T, T) -> bool)
    requires
        orders(before),
        ordered(s, before),
        s.no_duplicates(),
        !s.contains(x),
    ensures
        inserted(s, x, before).no_duplicates(),
    decreases s.len(),
{
    if s.len() > 0 && before(x, s.last()) {
        let t = s.drop_last();
        assert(!t.contains(x)) by {
            if t.contains(x) {
                let k = choose|k: int| 0 <= k < t.len() && t[k] == x;
                assert(s[k] == x);
            }
        }
        lemma_inserted_unique(t, x, before);
        lemma_inserted(t, x, before);
        let m = inserted(t, x, before);
        assert(!m.contains(s.last())) by {
            if m.contains(s.last()) {
                if s.last() == x {
                    assert(s.contains(x));
                } else {
                    assert(t.contains(s.last()));
                    let k = choose|k: int| 0 <= k < t.len() && t[k] == s.last();
                    assert(s[k] == s[s.len() - 1]);
                }
            }
        }
        let r = m.push(s.last());
        assert forall|i: int, j: int| 0 <= i < r.len() && 0 <= j < r.len() && i != j implies r[i]
            != r[j] by {
            if i < m.len() {
                assert(m.contains(m[i]));
            }
            if j < m.len() {
                assert(m.contains(m[j]));
            }
        }
    } else {
        let r = s.push(x);
        assert forall|i: int, j: int| 0 <= i < r.len() && 0 <= j < r.len() && i != j implies r[i]
            != r[j] by {
            if i < s.len() {
                assert(s.contains(s[i]));
            }
            if j < s.len() {
                assert(s.contains(s[j]));
            }
        }
    }
}

proof fn lemma_strict_unique<T>(x: Seq<T>, y: Seq<T>, before: spec_fn(T, T) -> bool)
    requires
        orders(before),
        x.len() == y.len(),
        forall|e: T| #[trigger] x.contains(e) <==> y.contains(e),
        forall|i: int, j: int|
            0 <= i < j < x.len() ==> before(#[trigger] x[i], #[trigger] x[j]),
        forall|i: int, j: int|
            0 <= i < j < y.len() ==> before(#[trigger] y[i], #[trigger] y[j]),
    ensures
        x == y,
    decreases x.len(),
{
    if x.len() == 0 {
        assert(x =~= y);
    } else {
        let n = x.len() - 1;
        assert(x[n] == y[n]) by {
            assert(x.contains(x[n]));
            assert(y.contains(y[n]));
            assert(x.contains(y[n]));
            let i = choose|i: int| 0 <= i < y.len() && y[i] == x[n];
            let j = choose|j: int| 0 <= j < x.len() && x[j] == y[n];
            if i < n && j < n {
                assert(before(y[i], y[n]));
                assert(before(x[j], x[n]));
            }
        }
        let xs = x.drop_last();
        let ys = y.drop_last();
        assert forall|e: T| #[trigger] xs.contains(e) <==> ys.contains(e) by {
            if xs.contains(e) {
                let k = choose|k: int| 0 <= k < xs.len() && xs[k] == e;
                assert(x[k] == e && x.contains(x[k]));
                assert(before(x[k], x[n]));
                assert(y.contains(e));
                let m = choose|m: int| 0 <= m < y.len() && y[m] == e;
                assert(m != n);
                assert(ys[m] == e);
            }
            if ys.contains(e) {
                let k = choose|k: int| 0 <= k < ys.len() && ys[k] == e;
                assert(y[k] == e && y.contains(y[k]));
                assert(before(y[k], y[n]));
                assert(x.contains(e));
                let m = choose|m: int| 0 <= m < x.len() && x[m] == e;
                assert(m != n);
                assert(xs[m] == e);
            }
        }
        lemma_strict_unique(xs, ys, before);
        assert(x =~= xs.push(x[n]));
        assert(y =~= ys.push(y[n]));
    }
}

} // verus!
