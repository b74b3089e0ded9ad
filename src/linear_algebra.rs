//! Elementwise vector arithmetic, reductions and matrix shaping.
use vstd::prelude::*;

verus! {

/// The common length of two vectors combined elementwise: the shorter one wins.
pub open spec fn zip_len<A, B>(v: Seq<A>, w: Seq<B>) -> nat {
    if v.len() <= w.len() { v.len() } else { w.len() }
}

/// A value that an `i64` can hold.
pub open spec fn fits_i64(x: int) -> bool {
    i64::MIN <= x <= i64::MAX
}

/// Elementwise sum over the common length.
pub open spec fn add_spec(v: Seq<i64>, w: Seq<i64>) -> Seq<i64> {
    Seq::new(zip_len(v, w), |i: int| (v[i] + w[i]) as i64)
}

/// No elementwise sum over the common length leaves the `i64` range.
pub open spec fn add_fits(v: Seq<i64>, w: Seq<i64>) -> bool {
    forall|i: int| 0 <= i < zip_len(v, w) ==> fits_i64(#[trigger] v[i] + w[i])
}

/// Elementwise sum of `v` and `w`; the elements past the shorter length are dropped.
pub fn vector_add(v: &[i64], w: &[i64]) -> (r: Vec<i64>)
    requires
        add_fits(v@, w@),
    ensures
        r@ == add_spec(v@, w@),
        r@.len() == zip_len(v@, w@),
        forall|i: int| 0 <= i < r@.len() ==> r@[i] == v@[i] + w@[i],
{
    let n: usize = if v.len() <= w.len() { v.len() } else { w.len() };
    let mut r: Vec<i64> = Vec::with_capacity(n);
    for i in 0..n
        invariant
            n == zip_len(v@, w@),
            add_fits(v@, w@),
            r@ == add_spec(v@, w@).take(i as int),
    {
        r.push(v[i] + w[i]);
    }
    assert(r@ =~= add_spec(v@, w@));
    r
}

/// Elementwise difference over the common length.
pub open spec fn subtract_spec(v: Seq<i64>, w: Seq<i64>) -> Seq<i64> {
    Seq::new(zip_len(v, w), |i: int| (v[i] - w[i]) as i64)
}

/// No elementwise difference over the common length leaves the `i64` range.
pub open spec fn subtract_fits(v: Seq<i64>, w: Seq<i64>) -> bool {
    forall|i: int| 0 <= i < zip_len(v, w) ==> fits_i64(#[trigger] v[i] - w[i])
}

/// Elementwise difference `v - w`; the elements past the shorter length are dropped.
pub fn vector_subtract(v: &[i64], w: &[i64]) -> (r: Vec<i64>)
    requires
        subtract_fits(v@, w@),
    ensures
        r@ == subtract_spec(v@, w@),
        r@.len() == zip_len(v@, w@),
        forall|i: int| 0 <= i < r@.len() ==> r@[i] == v@[i] - w@[i],
{
    let n: usize = if v.len() <= w.len() { v.len() } else { w.len() };
    let mut r: Vec<i64> = Vec::with_capacity(n);
    for i in 0..n
        invariant
            n == zip_len(v@, w@),
            subtract_fits(v@, w@),
            r@ == subtract_spec(v@, w@).take(i as int),
    {
        r.push(v[i] - w[i]);
    }
    assert(r@ =~= subtract_spec(v@, w@));
    r
}

/// The views of a sequence of vectors.
pub open spec fn views<T>(vs: Seq<Vec<T>>) -> Seq<Seq<T>> {
    vs.map_values(|v: Vec<T>| v@)
}

/// Left fold of `vs` under `comb`, starting from the first element (for a non-empty `vs`).
pub open spec fn fold_rows<T>(vs: Seq<Seq<T>>, comb: spec_fn(Seq<T>, Seq<T>) -> Seq<T>) -> Seq<T>
    decreases vs.len(),
{
    if vs.len() <= 1 {
        vs[0]
    } else {
        comb(fold_rows(vs.drop_last(), comb), vs.last())
    }
}

/// Folds `vs` from the left with `f`: nothing for no vectors, a copy of the single vector
/// for one, else `f(... f(f(vs[0], vs[1]), vs[2]) ..., vs[n - 1])`. `comb` describes what `f`
/// returns, and `pre` what `f` needs of its arguments at each step.
pub fn reduce<T: Copy, F: Fn(&[T], &[T]) -> Vec<T>>(
    vs: &[Vec<T>],
    f: F,
    Ghost(comb): Ghost<spec_fn(Seq<T>, Seq<T>) -> Seq<T>>,
    Ghost(pre): Ghost<spec_fn(Seq<T>, Seq<T>) -> bool>,
) -> (r: Option<Vec<T>>)
    requires
        forall|a: &[T], b: &[T]| #[trigger] pre(a@, b@) ==> f.requires((a, b)),
        forall|a: &[T], b: &[T], c: Vec<T>| f.ensures((a, b), c) ==> c@ == comb(a@, b@),
        forall|k: int|
            1 <= k < vs@.len() ==> #[trigger] pre(fold_rows(views(vs@).take(k), comb), vs@[k]@),
    ensures
        r is None <==> vs@.len() == 0,
        r matches Some(x) ==> x@ == fold_rows(views(vs@), comb),
{
    let n = vs.len();
    if n == 0 {
        return None;
    }
    assert(views(vs@).take(1) =~= seq![vs@[0]@]);
    let first: &Vec<T> = &vs[0];
    let mut accum: Vec<T> = Vec::with_capacity(first.len());
    for j in 0..first.len()
        invariant
            accum@ == first@.take(j as int),
    {
        accum.push(first[j]);
    }
    assert(accum@ =~= vs@[0]@);
    let mut i: usize = 1;
    while i < n
        invariant
            n == vs@.len(),
            1 <= i <= n,
            accum@ == fold_rows(views(vs@).take(i as int), comb),
            forall|a: &[T], b: &[T]| #[trigger] pre(a@, b@) ==> f.requires((a, b)),
            forall|a: &[T], b: &[T], c: Vec<T>| f.ensures((a, b), c) ==> c@ == comb(a@, b@),
            forall|k: int|
                1 <= k < vs@.len() ==> #[trigger] pre(fold_rows(views(vs@).take(k), comb), vs@[k]@),
        decreases n - i,
    {
        assert(views(vs@).take(i + 1).drop_last() =~= views(vs@).take(i as int));
        assert(pre(fold_rows(views(vs@).take(i as int), comb), vs@[i as int]@));
        accum = f(accum.as_slice(), vs[i].as_slice());
        i = i + 1;
    }
    assert(views(vs@).take(n as int) =~= views(vs@));
    Some(accum)
}

/// Elementwise sum as a function on views, for folding.
pub open spec fn add_comb() -> spec_fn(Seq<i64>, Seq<i64>) -> Seq<i64> {
    |a: Seq<i64>, b: Seq<i64>| add_spec(a, b)
}

/// Elementwise sum of all of `vs`, added from the left (for a non-empty `vs`).
pub open spec fn sum_spec(vs: Seq<Seq<i64>>) -> Seq<i64> {
    fold_rows(vs, add_comb())
}

/// No step of the left-to-right elementwise sum of `vs` leaves the `i64` range.
pub open spec fn rows_sum_fits(vs: Seq<Seq<i64>>) -> bool {
    forall|k: int| 1 <= k < vs.len() ==> #[trigger] add_fits(sum_spec(vs.take(k)), vs[k])
}

/// Elementwise sum of all of `vs`, added from the left; nothing for no vectors.
pub fn vector_sum(vs: &[Vec<i64>]) -> (r: Option<Vec<i64>>)
    requires
        rows_sum_fits(views(vs@)),
    ensures
        r is None <==> vs@.len() == 0,
        r matches Some(x) ==> x@ == sum_spec(views(vs@)),
{
    let ghost pre = |a: Seq<i64>, b: Seq<i64>| add_fits(a, b);
    assert forall|k: int| 1 <= k < vs@.len() implies #[trigger] pre(
        fold_rows(views(vs@).take(k), add_comb()),
        vs@[k]@,
    ) by {
        assert(add_fits(sum_spec(views(vs@).take(k)), views(vs@)[k]));
    }
    let add_step = (|a: &[i64], b: &[i64]| -> (c: Vec<i64>)
        requires
            add_fits(a@, b@),
        ensures
            c@ == add_spec(a@, b@),
        {
            vector_add(a, b)
        });
    reduce(vs, add_step, Ghost(add_comb()), Ghost(pre))
}

/// Every element of `v` multiplied by `c`.
pub open spec fn scale_spec(c: i64, v: Seq<i64>) -> Seq<i64> {
    Seq::new(v.len(), |i: int| (v[i] * c) as i64)
}

/// No product of an element of `v` with `c` leaves the `i64` range.
pub open spec fn scale_fits(c: i64, v: Seq<i64>) -> bool {
    forall|i: int| 0 <= i < v.len() ==> fits_i64(#[trigger] v[i] * c)
}

/// Multiplies every element of `v` by the scalar `c`.
pub fn scalar_multiply(c: i64, v: &[i64]) -> (r: Vec<i64>)
    requires
        scale_fits(c, v@),
    ensures
        r@ == scale_spec(c, v@),
        r@.len() == v@.len(),
        forall|i: int| 0 <= i < r@.len() ==> r@[i] == v@[i] * c,
{
    let mut r: Vec<i64> = Vec::with_capacity(v.len());
    for i in 0..v.len()
        invariant
            scale_fits(c, v@),
            r@ == scale_spec(c, v@).take(i as int),
    {
        r.push(v[i] * c);
    }
    assert(r@ =~= scale_spec(c, v@));
    r
}

/// Sum of the products `v[i] * w[i]` for `i < k`.
pub open spec fn dot_upto(v: Seq<i64>, w: Seq<i64>, k: int) -> int
    decreases k,
{
    if k <= 0 {
        0
    } else {
        dot_upto(v, w, k - 1) + v[k - 1] * w[k - 1]
    }
}

/// Dot product over the common length.
pub open spec fn dot_spec(v: Seq<i64>, w: Seq<i64>) -> int {
    dot_upto(v, w, zip_len(v, w) as int)
}

/// Every product and every running total of the dot product is an `i64`.
pub open spec fn dot_fits(v: Seq<i64>, w: Seq<i64>) -> bool {
    &&& forall|i: int| 0 <= i < zip_len(v, w) ==> fits_i64(#[trigger] v[i] * w[i])
    &&& forall|k: int| 0 <= k <= zip_len(v, w) ==> fits_i64(#[trigger] dot_upto(v, w, k))
}

/// Sum of the elementwise products of `v` and `w` over their common length.
pub fn dot(v: &[i64], w: &[i64]) -> (r: i64)
    requires
        dot_fits(v@, w@),
    ensures
        r == dot_spec(v@, w@),
{
    let n: usize = if v.len() <= w.len() { v.len() } else { w.len() };
    let mut acc: i64 = 0;
    for i in 0..n
        invariant
            n == zip_len(v@, w@),
            dot_fits(v@, w@),
            acc == dot_upto(v@, w@, i as int),
    {
        assert(fits_i64(dot_upto(v@, w@, i + 1)));
        let p: i64 = v[i] * w[i];
        acc = acc + p;
    }
    acc
}

/// Sum of the squares of the elements of `v`.
pub fn sum_of_squares(v: &[i64]) -> (r: i64)
    requires
        dot_fits(v@, v@),
    ensures
        r == dot_spec(v@, v@),
{
    dot(v, v)
}

/// Number of rows, and the length of the first row (zero when there are no rows).
pub open spec fn shape_spec<T>(m: Seq<Seq<T>>) -> (nat, nat) {
    (m.len(), if m.len() > 0 { m[0].len() } else { 0 })
}

/// The number of rows of `m` and the length of its first row, or `(0, 0)` for no rows.
/// The other rows are not inspected.
pub fn shape<T>(m: &[Vec<T>]) -> (r: (usize, usize))
    ensures
        (r.0 as nat, r.1 as nat) == shape_spec(views(m@)),
{
    let num_rows = m.len();
    let num_cols = if num_rows > 0 { m[0].len() } else { 0 };
    (num_rows, num_cols)
}

/// Row `i` of `m`.
pub fn get_row<T>(m: &[Vec<T>], i: usize) -> (r: &Vec<T>)
    requires
        i < m@.len(),
    ensures
        r@ == views(m@)[i as int],
{
    &m[i]
}

/// Column `i` of a matrix given by its rows: element `i` of every row.
pub open spec fn column_spec<T>(m: Seq<Seq<T>>, i: int) -> Seq<T> {
    Seq::new(m.len(), |r: int| m[r][i])
}

/// A new vector holding element `i` of every row of `m`, in row order.
pub fn get_column<T: Copy>(m: &[Vec<T>], i: usize) -> (r: Vec<T>)
    requires
        forall|k: int| 0 <= k < m@.len() ==> i < (#[trigger] m@[k])@.len(),
    ensures
        r@ == column_spec(views(m@), i as int),
{
    let mut r: Vec<T> = Vec::with_capacity(m.len());
    for k in 0..m.len()
        invariant
            forall|k: int| 0 <= k < m@.len() ==> i < (#[trigger] m@[k])@.len(),
            r@ == column_spec(views(m@), i as int).take(k as int),
    {
        r.push(m[k][i]);
    }
    assert(r@ =~= column_spec(views(m@), i as int));
    r
}

/// A `num_rows` by `num_cols` matrix whose entry at row `r`, column `c` is
/// `entry_fn(r, c)`; the entries are computed in row-major order.
pub fn make_matrix<T, F: Fn(usize, usize) -> T>(num_rows: usize, num_cols: usize, entry_fn: F) -> (m:
    Vec<Vec<T>>)
    requires
        forall|r: usize, c: usize| r < num_rows && c < num_cols ==> entry_fn.requires((r, c)),
    ensures
        m@.len() == num_rows,
        forall|r: int| 0 <= r < num_rows ==> (#[trigger] m@[r])@.len() == num_cols,
        forall|r: int, c: int|
            0 <= r < num_rows && 0 <= c < num_cols ==> entry_fn.ensures(
                (r as usize, c as usize),
                #[trigger] m@[r]@[c],
            ),
{
    let mut m: Vec<Vec<T>> = Vec::with_capacity(num_rows);
    for r in 0..num_rows
        invariant
            forall|r: usize, c: usize| r < num_rows && c < num_cols ==> entry_fn.requires((r, c)),
            m@.len() == r,
            forall|q: int| 0 <= q < r ==> (#[trigger] m@[q])@.len() == num_cols,
            forall|q: int, c: int|
                0 <= q < r && 0 <= c < num_cols ==> entry_fn.ensures(
                    (q as usize, c as usize),
                    #[trigger] m@[q]@[c],
                ),
    {
        let mut row: Vec<T> = Vec::with_capacity(num_cols);
        for c in 0..num_cols
            invariant
                forall|r: usize, c: usize| r < num_rows && c < num_cols ==> entry_fn.requires((r, c)),
                r < num_rows,
                row@.len() == c,
                forall|d: int| 0 <= d < c ==> entry_fn.ensures((r, d as usize), #[trigger] row@[d]),
        {
            row.push(entry_fn(r, c));
        }
        m.push(row);
    }
    m
}

/// For vectors of equal length, subtracting `w` is adding `w` scaled by `-1`, whenever
/// the difference is an `i64` vector and `w` holds no `i64::MIN` (whose negation is none).
pub proof fn lemma_subtract_is_add_negated(v: Seq<i64>, w: Seq<i64>)
    requires
        v.len() == w.len(),
        subtract_fits(v, w),
        forall|i: int| 0 <= i < w.len() ==> #[trigger] w[i] != i64::MIN,
    ensures
        scale_fits(-1i64, w),
        add_fits(v, scale_spec(-1i64, w)),
        subtract_spec(v, w) == add_spec(v, scale_spec(-1i64, w)),
{
    let n = scale_spec(-1i64, w);
    assert forall|i: int| 0 <= i < w.len() implies fits_i64(#[trigger] w[i] * -1) by {
        assert(w[i] != i64::MIN);
    }
    assert forall|i: int| 0 <= i < zip_len(v, n) implies fits_i64(#[trigger] v[i] + n[i]) by {
        assert(n[i] == -w[i]);
        assert(fits_i64(v[i] - w[i]));
    }
    assert(subtract_spec(v, w) =~= add_spec(v, n));
}

/// `sum` folds from the left: one vector sums to itself, two to their elementwise sum, and
/// `n >= 2` vectors to the sum of the first `n - 1` plus the last, so three vectors sum to
/// `add(add(v0, v1), v2)`.
pub proof fn lemma_sum_folds_left(vs: Seq<Seq<i64>>, v0: Seq<i64>, v1: Seq<i64>, v2: Seq<i64>)
    ensures
        sum_spec(seq![v0]) == v0,
        sum_spec(seq![v0, v1]) == add_spec(v0, v1),
        sum_spec(seq![v0, v1, v2]) == add_spec(add_spec(v0, v1), v2),
        vs.len() >= 2 ==> sum_spec(vs) == add_spec(sum_spec(vs.drop_last()), vs.last()),
{
    assert(seq![v0, v1].drop_last() =~= seq![v0]);
    assert(seq![v0, v1, v2].drop_last() =~= seq![v0, v1]);
    assert(sum_spec(seq![v0, v1]) == add_spec(sum_spec(seq![v0]), v1));
    assert(sum_spec(seq![v0, v1, v2]) == add_spec(sum_spec(seq![v0, v1]), v2));
}

/// The difference of a vector with itself has a zero sum of squares: the squared distance
/// from a vector to itself is zero.
pub proof fn lemma_self_difference_has_zero_square_sum(v: Seq<i64>)
    ensures
        subtract_fits(v, v),
        dot_fits(subtract_spec(v, v), subtract_spec(v, v)),
        dot_spec(subtract_spec(v, v), subtract_spec(v, v)) == 0,
{
    let d = subtract_spec(v, v);
    assert forall|i: int| 0 <= i < zip_len(v, v) implies fits_i64(#[trigger] v[i] - v[i]) by {}
    assert forall|i: int| 0 <= i < d.len() implies #[trigger] d[i] == 0 by {}
    lemma_dot_of_zeros(d, d.len() as int);
}

proof fn lemma_dot_of_zeros(d: Seq<i64>, k: int)
    requires
        0 <= k <= d.len(),
        forall|i: int| 0 <= i < d.len() ==> #[trigger] d[i] == 0,
    ensures
        forall|j: int| 0 <= j <= k ==> #[trigger] dot_upto(d, d, j) == 0,
    decreases k,
{
    if k > 0 {
        lemma_dot_of_zeros(d, k - 1);
        assert(dot_upto(d, d, k) == dot_upto(d, d, k - 1) + d[k - 1] * d[k - 1]);
    }
}

/// Reading a matrix by column and by row agrees: element `r` of column `i` is element `i`
/// of row `r`, wherever column `i` exists.
pub proof fn lemma_column_row_agree<T>(m: Seq<Seq<T>>, i: int, r: int)
    requires
        0 <= r < m.len(),
        forall|k: int| 0 <= k < m.len() ==> 0 <= i < (#[trigger] m[k]).len(),
    ensures
        column_spec(m, i)[r] == m[r][i],
{
}

} // verus!
