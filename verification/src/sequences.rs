//! Sequences put together piece by piece.

use vstd::prelude::*;

verus! {

/// The concatenation of `f(0)`, `f(1)`, up to `f(n - 1)`.
pub open spec fn collect<T>(n: int, f: spec_fn(int) -> Seq<T>) -> Seq<T>
    decreases n,
{
    if n <= 0 {
        Seq::empty()
    } else {
        collect(n - 1, f) + f(n - 1)
    }
}

/// Indices at which `f` is empty add nothing.
pub proof fn lemma_collect_skip<T>(k: int, n: int, f: spec_fn(int) -> Seq<T>)
    requires
        0 <= k <= n,
        forall|j: int| k <= j < n ==> (#[trigger] f(j)).len() == 0,
    ensures
        collect(n, f) == collect(k, f),
    decreases n - k,
{
    if k < n {
        lemma_collect_skip(k, n - 1, f);
        assert(collect(n - 1, f) + f(n - 1) =~= collect(n - 1, f));
    }
}

/// A collection of `n` parts of at most `bound` elements each holds at most
/// `n * bound` elements.
pub proof fn lemma_collect_bound<T>(n: int, f: spec_fn(int) -> Seq<T>, bound: int)
    requires
        0 <= n,
        forall|j: int| 0 <= j < n ==> (#[trigger] f(j)).len() <= bound,
    ensures
        collect(n, f).len() <= n * bound,
    decreases n,
{
    if n > 0 {
        lemma_collect_bound(n - 1, f, bound);
        assert(f(n - 1).len() <= bound);
        assert((n - 1) * bound + bound == n * bound) by (nonlinear_arith);
    } else {
        assert(n * bound == 0) by (nonlinear_arith)
            requires
                n == 0,
        ;
    }
}

/// What holds of every element of every part holds of every element of the
/// collection.
pub proof fn lemma_collect_all<T>(n: int, f: spec_fn(int) -> Seq<T>, p: spec_fn(T) -> bool)
    requires
        forall|j: int, x: int| 0 <= j < n && 0 <= x < f(j).len() ==> p(#[trigger] f(j)[x]),
    ensures
        forall|i: int| 0 <= i < collect(n, f).len() ==> p(#[trigger] collect(n, f)[i]),
    decreases n,
{
    if n > 0 {
        lemma_collect_all(n - 1, f, p);
        let head = collect(n - 1, f);
        assert forall|i: int| 0 <= i < collect(n, f).len() implies p(
            #[trigger] collect(n, f)[i],
        ) by {
            if i < head.len() {
                assert(collect(n, f)[i] == head[i]);
            } else {
                assert(collect(n, f)[i] == f(n - 1)[i - head.len()]);
            }
        }
    }
}

/// Every element of a part is an element of the collection.
pub proof fn lemma_collect_contains<T>(n: int, f: spec_fn(int) -> Seq<T>, j: int, x: int) -> (i: int)
    requires
        0 <= j < n,
        0 <= x < f(j).len(),
    ensures
        0 <= i < collect(n, f).len(),
        collect(n, f)[i] == f(j)[x],
    decreases n,
{
    if j == n - 1 {
        collect(n - 1, f).len() + x
    } else {
        lemma_collect_contains(n - 1, f, j, x)
    }
}

/// Every element of a collection comes from one of its parts.
pub proof fn lemma_collect_member<T>(n: int, f: spec_fn(int) -> Seq<T>, i: int) -> (r: (int, int))
    requires
        0 <= i < collect(n, f).len(),
    ensures
        0 <= r.0 < n,
        0 <= r.1 < f(r.0).len(),
        collect(n, f)[i] == f(r.0)[r.1],
    decreases n,
{
    if i < collect(n - 1, f).len() {
        lemma_collect_member(n - 1, f, i)
    } else {
        (n - 1, i - collect(n - 1, f).len())
    }
}

/// The parts of `f` below `n` are told apart by `label`, and no part holds
/// two elements of one key: every element of part `a` has the label
/// `mark(a)`, different parts have different marks, elements of different
/// labels have different keys, and the elements of one part have
/// different keys.
pub open spec fn parts_apart<T, K>(
    n: int,
    f: spec_fn(int) -> Seq<T>,
    key: spec_fn(T) -> K,
    label: spec_fn(T) -> int,
    mark: spec_fn(int) -> int,
) -> bool {
    &&& forall|a: int, x: int|
        0 <= a < n && 0 <= x < f(a).len() ==> label(#[trigger] f(a)[x]) == mark(a)
    &&& forall|a: int, b: int| 0 <= a < b < n ==> #[trigger] mark(a) != #[trigger] mark(b)
    &&& forall|s: T, t: T| label(s) != label(t) ==> #[trigger] key(s) != #[trigger] key(t)
    &&& forall|a: int, x: int, y: int|
        0 <= a < n && 0 <= x < y < f(a).len() ==> key(#[trigger] f(a)[x]) != key(
            #[trigger] f(a)[y],
        )
}

/// No two elements of a collection have one key, if its parts are told
/// apart and no part holds two elements of one key.
pub proof fn lemma_collect_distinct<T, K>(
    n: int,
    f: spec_fn(int) -> Seq<T>,
    key: spec_fn(T) -> K,
    label: spec_fn(T) -> int,
    mark: spec_fn(int) -> int,
    i: int,
    j: int,
)
    requires
        parts_apart(n, f, key, label, mark),
        0 <= i < j < collect(n, f).len(),
    ensures
        key(collect(n, f)[i]) != key(collect(n, f)[j]),
    decreases n,
{
    let head = collect(n - 1, f);
    if j < head.len() {
        lemma_collect_distinct(n - 1, f, key, label, mark, i, j);
    } else if i >= head.len() {
        let x = i - head.len();
        let y = j - head.len();
        assert(collect(n, f)[i] == f(n - 1)[x]);
        assert(collect(n, f)[j] == f(n - 1)[y]);
    } else {
        let (a, x) = lemma_collect_member(n - 1, f, i);
        let y = j - head.len();
        assert(collect(n, f)[i] == f(a)[x]);
        assert(collect(n, f)[j] == f(n - 1)[y]);
        assert(label(f(a)[x]) == mark(a));
        assert(label(f(n - 1)[y]) == mark(n - 1));
        assert(mark(a) != mark(n - 1));
    }
}

} // verus!
