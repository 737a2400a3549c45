//! What it means that a list holds exactly some of the items of another one, in
//! their order.
use vstd::prelude::*;

verus! {

/// Whether `out` holds the items at the positions `at`, which are in order and
/// are all positions below `n` that are to be kept.
pub open spec fn picks<T>(
    out: Seq<T>,
    n: int,
    keep: spec_fn(int) -> bool,
    item: spec_fn(int) -> T,
    at: Seq<int>,
) -> bool {
    &&& at.len() == out.len()
    &&& forall|k: int|
        0 <= k < at.len() ==> 0 <= #[trigger] at[k] < n && keep(at[k]) && out[k] == item(at[k])
    &&& forall|k: int, l: int| 0 <= k < l < at.len() ==> #[trigger] at[k] < #[trigger] at[l]
    &&& forall|i: int| 0 <= i < n && #[trigger] keep(i) ==> at.contains(i)
}

/// Whether `out` holds the items of exactly those positions below `n` that are
/// to be kept, each once and in order.
pub open spec fn exactly_those<T>(
    out: Seq<T>,
    n: int,
    keep: spec_fn(int) -> bool,
    item: spec_fn(int) -> T,
) -> bool {
    exists|at: Seq<int>| picks(out, n, keep, item, at)
}

pub proof fn lemma_picked_none<T>(keep: spec_fn(int) -> bool, item: spec_fn(int) -> T)
    ensures
        exactly_those(Seq::<T>::empty(), 0, keep, item),
{
    assert(picks(Seq::<T>::empty(), 0, keep, item, Seq::empty()));
}

pub proof fn lemma_picked<T>(
    out: Seq<T>,
    n: int,
    keep: spec_fn(int) -> bool,
    item: spec_fn(int) -> T,
)
    requires
        n >= 0,
        exactly_those(out, n, keep, item),
    ensures
        keep(n) ==> exactly_those(out.push(item(n)), n + 1, keep, item),
        !keep(n) ==> exactly_those(out, n + 1, keep, item),
{
    let at = choose|at: Seq<int>| picks(out, n, keep, item, at);
    if keep(n) {
        let more = at.push(n);
        assert forall|i: int| 0 <= i < n + 1 && #[trigger] keep(i) implies more.contains(i) by {
            if i == n {
                assert(more[at.len() as int] == n);
            } else {
                let k = choose|k: int| 0 <= k < at.len() && at[k] == i;
                assert(more[k] == i);
            }
        }
        assert(picks(out.push(item(n)), n + 1, keep, item, more));
    } else {
        assert(picks(out, n + 1, keep, item, at));
    }
}

/// A list of exactly some items holds an item if and only if it is that of a
/// position that is kept.
pub proof fn picked_items_are_those_kept<T>(
    out: Seq<T>,
    n: int,
    keep: spec_fn(int) -> bool,
    item: spec_fn(int) -> T,
    x: T,
)
    requires
        exactly_those(out, n, keep, item),
    ensures
        out.contains(x) <==> exists|i: int| 0 <= i < n && #[trigger] keep(i) && item(i) == x,
{
    let at = choose|at: Seq<int>| picks(out, n, keep, item, at);
    if out.contains(x) {
        let k = choose|k: int| 0 <= k < out.len() && out[k] == x;
        assert(keep(at[k]) && item(at[k]) == x);
    }
    if exists|i: int| 0 <= i < n && #[trigger] keep(i) && item(i) == x {
        let i = choose|i: int| 0 <= i < n && #[trigger] keep(i) && item(i) == x;
        assert(at.contains(i));
        let k = choose|k: int| 0 <= k < at.len() && at[k] == i;
        assert(out[k] == x);
    }
}

proof fn lemma_same_positions<T>(
    a: Seq<T>,
    b: Seq<T>,
    n: int,
    keep: spec_fn(int) -> bool,
    item: spec_fn(int) -> T,
    x: Seq<int>,
    y: Seq<int>,
    k: int,
)
    requires
        picks(a, n, keep, item, x),
        picks(b, n, keep, item, y),
        0 <= k < x.len(),
    ensures
        k < y.len(),
        x[k] == y[k],
    decreases k,
{
    if k > 0 {
        lemma_same_positions(a, b, n, keep, item, x, y, k - 1);
    }
    assert(keep(x[k]));
    assert(y.contains(x[k]));
    let j = choose|j: int| 0 <= j < y.len() && y[j] == x[k];
    if j < k {
        if j < k - 1 {
            assert(y[j] < y[k - 1]);
        }
        assert(x[k - 1] < x[k]);
    }
    assert(j >= k);
    if j > k {
        assert(y[k] < y[j]);
        assert(keep(y[k]));
        assert(x.contains(y[k]));
        let i = choose|i: int| 0 <= i < x.len() && x[i] == y[k];
        if i >= k {
            if i > k {
                assert(x[k] < x[i]);
            }
        } else {
            if i < k - 1 {
                assert(x[i] < x[k - 1]);
            }
            assert(y[k - 1] < y[k]);
        }
    }
}

/// There is only one such list.
pub proof fn only_one_list_is_exact<T>(
    a: Seq<T>,
    b: Seq<T>,
    n: int,
    keep: spec_fn(int) -> bool,
    item: spec_fn(int) -> T,
)
    requires
        exactly_those(a, n, keep, item),
        exactly_those(b, n, keep, item),
    ensures
        a == b,
{
    let x = choose|at: Seq<int>| picks(a, n, keep, item, at);
    let y = choose|at: Seq<int>| picks(b, n, keep, item, at);
    if a.len() < b.len() {
        lemma_same_positions(b, a, n, keep, item, y, x, y.len() - 1);
    }
    assert forall|k: int| 0 <= k < a.len() implies a[k] == b[k] && k < b.len() by {
        lemma_same_positions(a, b, n, keep, item, x, y, k);
        assert(x[k] == y[k]);
    }
    if a.len() > b.len() {
        lemma_same_positions(a, b, n, keep, item, x, y, x.len() - 1);
    }
    assert(a =~= b);
}

} // verus!
