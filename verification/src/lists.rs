//! What it means that a list is gathered from places in order, and how many
//! places there are of a kind.

use vstd::prelude::*;

verus! {

/// `at` holds the places from `lo` up to `n` at which `f` gives something,
/// ascending, and `r` holds what it gives there.
pub open spec fn gathered_at<T>(
    f: spec_fn(int) -> Option<T>,
    lo: int,
    n: int,
    r: Seq<T>,
    at: Seq<int>,
) -> bool {
    &&& at.len() == r.len()
    &&& forall|k: int| 0 <= k < at.len() ==> lo <= #[trigger] at[k] < n && f(at[k]) == Some(r[k])
    &&& forall|j: int, k: int| 0 <= j < k < at.len() ==> #[trigger] at[j] < #[trigger] at[k]
    &&& forall|i: int| lo <= i < n && (#[trigger] f(i)) is Some ==> at.contains(i)
}

/// `r` is what `f` gives at the places from `lo` up to `n`, all of it, in that
/// order, and nothing else.
pub open spec fn gathers<T>(f: spec_fn(int) -> Option<T>, lo: int, n: int, r: Seq<T>) -> bool {
    exists|at: Seq<int>| #[trigger] gathered_at(f, lo, n, r, at)
}

/// From no places nothing is gathered.
pub proof fn lemma_gathers_nothing<T>(f: spec_fn(int) -> Option<T>, lo: int, n: int)
    requires
        n <= lo,
    ensures
        gathers(f, lo, n, Seq::<T>::empty()),
{
    assert(gathered_at(f, lo, n, Seq::<T>::empty(), Seq::<int>::empty()));
}

/// One place more gives what `f` gives there.
pub proof fn lemma_gathers_next<T>(f: spec_fn(int) -> Option<T>, lo: int, n: int, r: Seq<T>)
    requires
        lo <= n,
        gathers(f, lo, n, r),
    ensures
        f(n) matches Some(v) ==> gathers(f, lo, n + 1, r.push(v)),
        f(n) is None ==> gathers(f, lo, n + 1, r),
{
    let at = choose|at: Seq<int>| #[trigger] gathered_at(f, lo, n, r, at);
    match f(n) {
        Some(v) => {
            let longer = at.push(n);
            assert forall|i: int| lo <= i < n + 1 && (#[trigger] f(i)) is Some implies longer.contains(
                i,
            ) by {
                if i < n {
                    let k = choose|k: int| 0 <= k < at.len() && at[k] == i;
                    assert(longer[k] == i);
                } else {
                    assert(longer[at.len() as int] == i);
                }
            }
            assert(gathered_at(f, lo, n + 1, r.push(v), longer));
        },
        None => {
            assert(gathered_at(f, lo, n + 1, r, at));
        },
    }
}

/// What is gathered at a place lies at least as far from the start as it has
/// others before it.
pub proof fn lemma_gathered_bound<T>(
    f: spec_fn(int) -> Option<T>,
    lo: int,
    n: int,
    r: Seq<T>,
    at: Seq<int>,
    k: int,
)
    requires
        gathered_at(f, lo, n, r, at),
        0 <= k < at.len(),
    ensures
        lo + k <= at[k] < n,
    decreases k,
{
    if k > 0 {
        lemma_gathered_bound(f, lo, n, r, at, k - 1);
        assert(at[k - 1] < at[k]);
    }
}

/// What is gathered is one list only.
pub proof fn law_gathered_once<T>(
    f: spec_fn(int) -> Option<T>,
    lo: int,
    n: int,
    a: Seq<T>,
    b: Seq<T>,
)
    requires
        gathers(f, lo, n, a),
        gathers(f, lo, n, b),
    ensures
        a == b,
{
    let x = choose|at: Seq<int>| #[trigger] gathered_at(f, lo, n, a, at);
    let y = choose|at: Seq<int>| #[trigger] gathered_at(f, lo, n, b, at);
    assert forall|k: int| 0 <= k < x.len() implies k < y.len() && #[trigger] x[k] == y[k] by {
        lemma_same_places(f, lo, n, a, b, x, y, k);
    }
    assert forall|k: int| 0 <= k < y.len() implies k < x.len() && #[trigger] y[k] == x[k] by {
        lemma_same_places(f, lo, n, b, a, y, x, k);
    }
    assert(x.len() == y.len()) by {
        if x.len() > y.len() {
            lemma_same_places(f, lo, n, a, b, x, y, y.len() as int);
        }
        if y.len() > x.len() {
            lemma_same_places(f, lo, n, b, a, y, x, x.len() as int);
        }
    }
    assert forall|k: int| 0 <= k < a.len() implies a[k] == b[k] by {
        assert(x[k] == y[k]);
        assert(f(x[k]) == Some(a[k]));
        assert(f(y[k]) == Some(b[k]));
    }
    assert(a =~= b);
}

proof fn lemma_same_places<T>(
    f: spec_fn(int) -> Option<T>,
    lo: int,
    n: int,
    a: Seq<T>,
    b: Seq<T>,
    x: Seq<int>,
    y: Seq<int>,
    k: int,
)
    requires
        gathered_at(f, lo, n, a, x),
        gathered_at(f, lo, n, b, y),
        0 <= k < x.len(),
    ensures
        k < y.len(),
        x[k] == y[k],
    decreases k,
{
    assert forall|m: int| 0 <= m < k implies m < y.len() && #[trigger] x[m] == y[m] by {
        lemma_same_places(f, lo, n, a, b, x, y, m);
    }
    assert(f(x[k]) is Some);
    assert(y.contains(x[k]));
    let p = choose|p: int| 0 <= p < y.len() && y[p] == x[k];
    if p < k {
        assert(x[p] == y[p]);
        assert(x[p] < x[k]);
    }
    if p > k {
        assert(f(y[k]) is Some);
        assert(x.contains(y[k]));
        let q = choose|q: int| 0 <= q < x.len() && x[q] == y[k];
        assert(y[k] < y[p]);
        if q < k {
            assert(x[q] == y[q]);
            assert(y[q] < y[k]);
        } else if q > k {
            assert(x[k] < x[q]);
        }
    }
}

/// How many of the places from `lo` up to `n` are as `p` asks.
pub open spec fn count_of(p: spec_fn(int) -> bool, lo: int, n: int) -> nat {
    vstd::set_lib::set_int_range(lo, n).filter(p).len()
}

/// Of no places none is as asked.
pub proof fn lemma_count_of_none(p: spec_fn(int) -> bool, lo: int, n: int)
    requires
        n <= lo,
    ensures
        count_of(p, lo, n) == 0,
{
    assert(vstd::set_lib::set_int_range(lo, n).filter(p) =~= Set::<int>::empty());
}

/// One place more counts where it is as asked.
pub proof fn lemma_count_of_next(p: spec_fn(int) -> bool, lo: int, n: int)
    requires
        lo <= n,
    ensures
        count_of(p, lo, n + 1) == count_of(p, lo, n) + (if p(n) {
            1nat
        } else {
            0nat
        }),
{
    let shorter = vstd::set_lib::set_int_range(lo, n);
    let longer = vstd::set_lib::set_int_range(lo, n + 1);
    vstd::set_lib::lemma_int_range(lo, n);
    vstd::set_lib::lemma_int_range(lo, n + 1);
    if p(n) {
        assert(longer.filter(p) =~= shorter.filter(p).insert(n));
        assert(!shorter.filter(p).contains(n));
    } else {
        assert(longer.filter(p) =~= shorter.filter(p));
    }
}

}
