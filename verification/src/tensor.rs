use vstd::prelude::*;
use crate::scalar::Scalar;

verus! {

/// Every row of `m` is `cols` entries long.
pub open spec fn grid_wf<T>(m: Seq<Vec<T>>, cols: int) -> bool {
    forall|i: int| 0 <= i < m.len() ==> (#[trigger] m[i])@.len() == cols
}

/// The rows of `m` as mathematical sequences.
pub open spec fn views<T>(m: Seq<Vec<T>>) -> Seq<Seq<T>> {
    m.map_values(|r: Vec<T>| r@)
}

/// An exact copy of one row.
pub fn copy_row<S: Scalar>(v: &Vec<S>) -> (r: Vec<S>)
    ensures
        r@ == v@,
{
    let mut r: Vec<S> = Vec::new();
    let mut k: usize = 0;
    while k < v.len()
        invariant
            0 <= k <= v@.len(),
            r@ == v@.subrange(0, k as int),
        decreases v@.len() - k,
    {
        r.push(v[k]);
        proof {
            assert(r@ =~= v@.subrange(0, k + 1));
        }
        k = k + 1;
    }
    proof {
        assert(v@.subrange(0, v@.len() as int) =~= v@);
    }
    r
}

/// An exact copy of a sequence of rows.
pub fn copy_grid<S: Scalar>(m: &Vec<Vec<S>>) -> (r: Vec<Vec<S>>)
    ensures
        r@.len() == m@.len(),
        forall|i: int| 0 <= i < m@.len() ==> (#[trigger] r@[i])@ == m@[i]@,
        views(r@) == views(m@),
{
    let mut r: Vec<Vec<S>> = Vec::new();
    let mut i: usize = 0;
    while i < m.len()
        invariant
            0 <= i <= m@.len(),
            r@.len() == i,
            forall|x: int| 0 <= x < i ==> (#[trigger] r@[x])@ == m@[x]@,
        decreases m@.len() - i,
    {
        let row = copy_row(&m[i]);
        r.push(row);
        i = i + 1;
    }
    proof {
        assert(views(r@) =~= views(m@));
    }
    r
}

/// A row of `n` zero scalars.
pub fn zeros_row<S: Scalar>(n: usize) -> (r: Vec<S>)
    ensures
        r@.len() == n,
{
    let mut r: Vec<S> = Vec::new();
    let mut k: usize = 0;
    while k < n
        invariant
            0 <= k <= n,
            r@.len() == k,
        decreases n - k,
    {
        r.push(S::zero());
        k = k + 1;
    }
    r
}

/// `rows` rows of `cols` zero scalars each.
pub fn zeros_grid<S: Scalar>(rows: usize, cols: usize) -> (r: Vec<Vec<S>>)
    ensures
        r@.len() == rows,
        grid_wf(r@, cols as int),
{
    let mut r: Vec<Vec<S>> = Vec::new();
    let mut i: usize = 0;
    while i < rows
        invariant
            0 <= i <= rows,
            r@.len() == i,
            grid_wf(r@, cols as int),
        decreases rows - i,
    {
        r.push(zeros_row(cols));
        i = i + 1;
    }
    r
}

/// Elementwise sum of two equally shaped rows.
pub fn add_rows<S: Scalar>(a: &Vec<S>, b: &Vec<S>) -> (r: Vec<S>)
    requires
        a@.len() == b@.len(),
    ensures
        r@.len() == a@.len(),
{
    let mut r: Vec<S> = Vec::new();
    let mut k: usize = 0;
    while k < a.len()
        invariant
            a@.len() == b@.len(),
            0 <= k <= a@.len(),
            r@.len() == k,
        decreases a@.len() - k,
    {
        r.push(a[k].add(b[k]));
        k = k + 1;
    }
    r
}

/// Elementwise sum of two equally shaped grids: the residual add.
pub fn add_grids<S: Scalar>(a: &Vec<Vec<S>>, b: &Vec<Vec<S>>, cols: usize) -> (r: Vec<Vec<S>>)
    requires
        a@.len() == b@.len(),
        grid_wf(a@, cols as int),
        grid_wf(b@, cols as int),
    ensures
        r@.len() == a@.len(),
        grid_wf(r@, cols as int),
{
    let mut r: Vec<Vec<S>> = Vec::new();
    let mut i: usize = 0;
    while i < a.len()
        invariant
            a@.len() == b@.len(),
            grid_wf(a@, cols as int),
            grid_wf(b@, cols as int),
            0 <= i <= a@.len(),
            r@.len() == i,
            grid_wf(r@, cols as int),
        decreases a@.len() - i,
    {
        r.push(add_rows(&a[i], &b[i]));
        i = i + 1;
    }
    r
}

/// The numerically stabilized softmax of one row: the maximum is
/// subtracted before exponentiation, and the exponentials are normalized
/// by their sum.
pub fn softmax<S: Scalar>(x: &Vec<S>) -> (r: Vec<S>)
    requires
        x@.len() >= 1,
    ensures
        r@.len() == x@.len(),
{
    let n = x.len();
    let mut max = x[0];
    let mut k: usize = 1;
    while k < n
        invariant
            n == x@.len(),
            1 <= k <= n,
        decreases n - k,
    {
        if max.lt(x[k]) {
            max = x[k];
        }
        k = k + 1;
    }
    let mut exps: Vec<S> = Vec::new();
    let mut sum = S::zero();
    k = 0;
    while k < n
        invariant
            n == x@.len(),
            0 <= k <= n,
            exps@.len() == k,
        decreases n - k,
    {
        let e = x[k].sub(max).exp();
        exps.push(e);
        sum = sum.add(e);
        k = k + 1;
    }
    let mut r: Vec<S> = Vec::new();
    k = 0;
    while k < n
        invariant
            n == x@.len(),
            exps@.len() == n,
            0 <= k <= n,
            r@.len() == k,
        decreases n - k,
    {
        r.push(exps[k].div(sum));
        k = k + 1;
    }
    r
}

/// Parallel buffer lists: equally many buffers, pairwise equally long.
/// This is the alignment the optimizer's traversal relies on.
pub open spec fn buffers_aligned<S>(p: Seq<Seq<S>>, g: Seq<Seq<S>>) -> bool {
    &&& p.len() == g.len()
    &&& forall|k: int| 0 <= k < p.len() ==> (#[trigger] p[k]).len() == g[k].len()
}

/// Alignment is preserved by concatenation.
pub proof fn lemma_aligned_concat<S>(pa: Seq<Seq<S>>, ga: Seq<Seq<S>>, pb: Seq<Seq<S>>, gb: Seq<
    Seq<S>,
>)
    requires
        buffers_aligned(pa, ga),
        buffers_aligned(pb, gb),
    ensures
        buffers_aligned(pa + pb, ga + gb),
{
    assert forall|k: int| 0 <= k < (pa + pb).len() implies (#[trigger] (pa + pb)[k]).len() == (ga
        + gb)[k].len() by {
        if k < pa.len() {
            assert((pa + pb)[k] == pa[k] && (ga + gb)[k] == ga[k]);
        } else {
            assert((pa + pb)[k] == pb[k - pa.len()] && (ga + gb)[k] == gb[k - pa.len()]);
        }
    }
}

/// A buffer list of the same shape as `m`, filled with zeros.
pub fn zeros_like<S: Scalar>(m: &Vec<Vec<S>>) -> (r: Vec<Vec<S>>)
    ensures
        r@.len() == m@.len(),
        forall|i: int| 0 <= i < m@.len() ==> (#[trigger] r@[i])@.len() == m@[i]@.len(),
{
    let mut r: Vec<Vec<S>> = Vec::new();
    let mut i: usize = 0;
    while i < m.len()
        invariant
            0 <= i <= m@.len(),
            r@.len() == i,
            forall|x: int| 0 <= x < i ==> (#[trigger] r@[x])@.len() == m@[x]@.len(),
        decreases m@.len() - i,
    {
        r.push(zeros_row(m[i].len()));
        i = i + 1;
    }
    r
}

} // verus!
