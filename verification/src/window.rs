use vstd::prelude::*;

verus! {

/// `c` clamped into `0 ..= n - 1` (for `n >= 1`).
pub open spec fn clamp(c: int, n: int) -> int {
    if c < 0 {
        0
    } else if c > n - 1 {
        n - 1
    } else {
        c
    }
}

/// `log` with the event `e` appended, if there is one.
pub open spec fn append<T>(log: Seq<T>, e: Option<T>) -> Seq<T> {
    match e {
        Some(t) => log.push(t),
        None => log,
    }
}

/// Applies `f` to `acc` at the cells `(i, c0)`, `(i, c0 + 1)`, ...,
/// `(i, c_end - 1)` of row `i`, in that order.
pub open spec fn fold_row<A>(f: spec_fn(A, int, int) -> A, acc: A, i: int, c0: int, c_end: int) -> A
    decreases c_end - c0,
{
    if c_end <= c0 {
        acc
    } else {
        f(fold_row(f, acc, i, c0, c_end - 1), i, c_end - 1)
    }
}

/// Applies `f` to `acc` at every cell of rows `r0 .. r_end` and columns
/// `c0 .. c_end`, row by row, each row from left to right.
pub open spec fn fold_window<A>(
    f: spec_fn(A, int, int) -> A,
    acc: A,
    r0: int,
    r_end: int,
    c0: int,
    c_end: int,
) -> A
    decreases r_end - r0,
{
    if r_end <= r0 {
        acc
    } else {
        fold_row(f, fold_window(f, acc, r0, r_end - 1, c0, c_end), r_end - 1, c0, c_end)
    }
}

/// A property that `f` keeps at every cell of rows `r0 .. r_end` and
/// columns `c0 .. c_end`: if it holds of `acc`, it holds of `f(acc, i, j)`.
pub open spec fn keeps_on<A>(
    f: spec_fn(A, int, int) -> A,
    p: spec_fn(A) -> bool,
    r0: int,
    r_end: int,
    c0: int,
    c_end: int,
) -> bool {
    forall|a: A, i: int, j: int|
        r0 <= i < r_end && c0 <= j < c_end && p(a) ==> #[trigger] p(f(a, i, j))
}

/// A property that `f` keeps along row `i` holds after that row of `f`.
pub proof fn lemma_fold_row_keeps<A>(
    f: spec_fn(A, int, int) -> A,
    p: spec_fn(A) -> bool,
    acc: A,
    i: int,
    c0: int,
    c_end: int,
)
    requires
        keeps_on(f, p, i, i + 1, c0, c_end),
        p(acc),
    ensures
        p(fold_row(f, acc, i, c0, c_end)),
    decreases c_end - c0,
{
    if c_end > c0 {
        assert(keeps_on(f, p, i, i + 1, c0, c_end - 1));
        lemma_fold_row_keeps(f, p, acc, i, c0, c_end - 1);
        let a = fold_row(f, acc, i, c0, c_end - 1);
        assert(p(f(a, i, c_end - 1)));
    }
}

/// A property that `f` keeps on a window holds after the window of `f`.
pub proof fn lemma_fold_window_keeps<A>(
    f: spec_fn(A, int, int) -> A,
    p: spec_fn(A) -> bool,
    acc: A,
    r0: int,
    r_end: int,
    c0: int,
    c_end: int,
)
    requires
        keeps_on(f, p, r0, r_end, c0, c_end),
        p(acc),
    ensures
        p(fold_window(f, acc, r0, r_end, c0, c_end)),
    decreases r_end - r0,
{
    if r_end > r0 {
        assert(keeps_on(f, p, r0, r_end - 1, c0, c_end));
        lemma_fold_window_keeps(f, p, acc, r0, r_end - 1, c0, c_end);
        assert(keeps_on(f, p, r_end - 1, r_end, c0, c_end));
        lemma_fold_row_keeps(f, p, fold_window(f, acc, r0, r_end - 1, c0, c_end), r_end - 1, c0, c_end);
    }
}

/// A row of `f` that leaves every accumulator as it is leaves `acc`.
pub proof fn lemma_fold_row_still<A>(f: spec_fn(A, int, int) -> A, acc: A, i: int, c0: int, c_end: int)
    requires
        forall|a: A, j: int| c0 <= j < c_end ==> #[trigger] f(a, i, j) == a,
    ensures
        fold_row(f, acc, i, c0, c_end) == acc,
    decreases c_end - c0,
{
    if c_end > c0 {
        lemma_fold_row_still(f, acc, i, c0, c_end - 1);
        assert(f(fold_row(f, acc, i, c0, c_end - 1), i, c_end - 1) == fold_row(f, acc, i, c0, c_end - 1));
    }
}

/// A row of `f` that acts only at column `q` is `f` at `(i, q)`.
pub proof fn lemma_fold_row_single<A>(f: spec_fn(A, int, int) -> A, acc: A, i: int, c0: int, c_end: int, q: int)
    requires
        c0 <= q < c_end,
        forall|a: A, j: int| c0 <= j < c_end && j != q ==> #[trigger] f(a, i, j) == a,
    ensures
        fold_row(f, acc, i, c0, c_end) == f(acc, i, q),
    decreases c_end - c0,
{
    if c_end - 1 == q {
        lemma_fold_row_still(f, acc, i, c0, c_end - 1);
    } else {
        lemma_fold_row_single(f, acc, i, c0, c_end - 1, q);
        assert(f(fold_row(f, acc, i, c0, c_end - 1), i, c_end - 1) == fold_row(f, acc, i, c0, c_end - 1));
    }
}

/// A window of `f` that leaves every accumulator as it is leaves `acc`.
pub proof fn lemma_fold_window_still<A>(
    f: spec_fn(A, int, int) -> A,
    acc: A,
    r0: int,
    r_end: int,
    c0: int,
    c_end: int,
)
    requires
        forall|a: A, i: int, j: int| r0 <= i < r_end && c0 <= j < c_end ==> #[trigger] f(a, i, j) == a,
    ensures
        fold_window(f, acc, r0, r_end, c0, c_end) == acc,
    decreases r_end - r0,
{
    if r_end > r0 {
        lemma_fold_window_still(f, acc, r0, r_end - 1, c0, c_end);
        lemma_fold_row_still(f, acc, r_end - 1, c0, c_end);
    }
}

/// A window of `f` that acts only at the cell `(p, q)` is `f` at `(p, q)`.
pub proof fn lemma_fold_window_single<A>(
    f: spec_fn(A, int, int) -> A,
    acc: A,
    r0: int,
    r_end: int,
    c0: int,
    c_end: int,
    p: int,
    q: int,
)
    requires
        r0 <= p < r_end,
        c0 <= q < c_end,
        forall|a: A, i: int, j: int| r0 <= i < r_end && c0 <= j < c_end && !(i == p && j == q)
            ==> #[trigger] f(a, i, j) == a,
    ensures
        fold_window(f, acc, r0, r_end, c0, c_end) == f(acc, p, q),
    decreases r_end - r0,
{
    if r_end - 1 == p {
        lemma_fold_window_still(f, acc, r0, r_end - 1, c0, c_end);
        lemma_fold_row_single(f, acc, p, c0, c_end, q);
    } else {
        lemma_fold_window_single(f, acc, r0, r_end - 1, c0, c_end, p, q);
        lemma_fold_row_still(f, f(acc, p, q), r_end - 1, c0, c_end);
    }
}

} // verus!
