use vstd::prelude::*;
use crate::scalar::Scalar;
use crate::tensor::buffers_aligned;
use crate::tensor::copy_row;
use crate::tensor::views;
use crate::tensor::grid_wf;

verus! {

/// Per-row normalization with a learned scale and shift.
///
/// Each row is shifted by its mean and scaled by the reciprocal of
/// `sqrt(variance + eps)` (biased variance over the feature dimension),
/// then multiplied by `gamma` and shifted by `beta`. The layer caches
/// nothing: its backward pass recomputes mean and variance from the
/// original input it is handed. The backward pass accumulates the `gamma`
/// and `beta` gradients into the layer's own gradient buffers and leaves
/// the parameters untouched; the optimizer is their only writer.
pub struct LayerNorm<S> {
    pub dim: usize,
    pub gamma: Vec<S>,
    pub beta: Vec<S>,
    pub grad_gamma: Vec<S>,
    pub grad_beta: Vec<S>,
    pub eps: S,
}

impl<S: Scalar> LayerNorm<S> {
    pub open spec fn wf(&self) -> bool {
        &&& self.gamma@.len() == self.dim
        &&& self.beta@.len() == self.dim
        &&& self.grad_gamma@.len() == self.dim
        &&& self.grad_beta@.len() == self.dim
    }

    /// The parameter buffers in their fixed traversal order: scale, then
    /// shift.
    pub open spec fn params(&self) -> Seq<Seq<S>> {
        seq![self.gamma@, self.beta@]
    }

    /// The gradient buffers, in the same order as `params`.
    pub open spec fn grads(&self) -> Seq<Seq<S>> {
        seq![self.grad_gamma@, self.grad_beta@]
    }

    /// Scale one, shift zero, gradients zero; `eps` is the fixed
    /// denominator guard, one part in a hundred thousand.
    pub fn new(dim: usize) -> (r: LayerNorm<S>)
        ensures
            r.wf(),
            r.dim == dim,
    {
        let mut gamma: Vec<S> = Vec::new();
        let mut beta: Vec<S> = Vec::new();
        let mut grad_gamma: Vec<S> = Vec::new();
        let mut grad_beta: Vec<S> = Vec::new();
        let mut k: usize = 0;
        while k < dim
            invariant
                0 <= k <= dim,
                gamma@.len() == k,
                beta@.len() == k,
                grad_gamma@.len() == k,
                grad_beta@.len() == k,
            decreases dim - k,
        {
            gamma.push(S::one());
            beta.push(S::zero());
            grad_gamma.push(S::zero());
            grad_beta.push(S::zero());
            k = k + 1;
        }
        let eps = S::one().div(S::from_usize(100000));
        LayerNorm { dim, gamma, beta, grad_gamma, grad_beta, eps }
    }

    /// Mean and biased variance of one row, of length `dim`.
    fn row_stats(&self, row: &Vec<S>) -> (S, S)
        requires
            row@.len() == self.dim,
    {
        let dim_s = S::from_usize(self.dim);
        let mut sum = S::zero();
        let mut k: usize = 0;
        while k < self.dim
            invariant
                row@.len() == self.dim,
                0 <= k <= self.dim,
            decreases self.dim - k,
        {
            sum = sum.add(row[k]);
            k = k + 1;
        }
        let mean = sum.div(dim_s);
        let mut var_sum = S::zero();
        k = 0;
        while k < self.dim
            invariant
                row@.len() == self.dim,
                0 <= k <= self.dim,
            decreases self.dim - k,
        {
            let d = row[k].sub(mean);
            var_sum = var_sum.add(d.mul(d));
            k = k + 1;
        }
        (mean, var_sum.div(dim_s))
    }

    /// Normalizes every row; the output has exactly the input's shape.
    pub fn forward(&self, input: &Vec<Vec<S>>) -> (out: Vec<Vec<S>>)
        requires
            self.wf(),
            grid_wf(input@, self.dim as int),
        ensures
            out@.len() == input@.len(),
            grid_wf(out@, self.dim as int),
    {
        let n = input.len();
        let mut out: Vec<Vec<S>> = Vec::new();
        let mut i: usize = 0;
        while i < n
            invariant
                self.wf(),
                grid_wf(input@, self.dim as int),
                n == input@.len(),
                0 <= i <= n,
                out@.len() == i,
                grid_wf(out@, self.dim as int),
            decreases n - i,
        {
            let row = &input[i];
            let (mean, variance) = self.row_stats(row);
            let std_dev = variance.add(self.eps).sqrt();
            let mut orow: Vec<S> = Vec::new();
            let mut k: usize = 0;
            while k < self.dim
                invariant
                    self.wf(),
                    row@.len() == self.dim,
                    0 <= k <= self.dim,
                    orow@.len() == k,
                decreases self.dim - k,
            {
                orow.push(row[k].sub(mean).div(std_dev).mul(self.gamma[k]).add(self.beta[k]));
                k = k + 1;
            }
            out.push(orow);
            i = i + 1;
        }
        out
    }

    /// Recomputes each row's statistics from the supplied original input,
    /// propagates the normalization gradient, and accumulates the `gamma`
    /// and `beta` gradients. The returned gradient has exactly the shape
    /// of `grad_output`, and the parameters are unchanged.
    pub fn backward(&mut self, grad_output: &Vec<Vec<S>>, input: &Vec<Vec<S>>) -> (grad_input: Vec<
        Vec<S>,
    >)
        requires
            old(self).wf(),
            grad_output@.len() == input@.len(),
            grid_wf(grad_output@, old(self).dim as int),
            grid_wf(input@, old(self).dim as int),
        ensures
            final(self).wf(),
            final(self).dim == old(self).dim,
            final(self).gamma == old(self).gamma,
            final(self).beta == old(self).beta,
            final(self).eps == old(self).eps,
            grad_input@.len() == grad_output@.len(),
            grid_wf(grad_input@, final(self).dim as int),
    {
        let n = input.len();
        let dim_s = S::from_usize(self.dim);
        let mut gg = copy_row(&self.grad_gamma);
        let mut gb = copy_row(&self.grad_beta);
        let mut grad_input: Vec<Vec<S>> = Vec::new();
        let mut i: usize = 0;
        while i < n
            invariant
                self.wf(),
                n == input@.len(),
                grad_output@.len() == n,
                grid_wf(grad_output@, self.dim as int),
                grid_wf(input@, self.dim as int),
                gg@.len() == self.dim,
                gb@.len() == self.dim,
                0 <= i <= n,
                grad_input@.len() == i,
                grid_wf(grad_input@, self.dim as int),
            decreases n - i,
        {
            let row = &input[i];
            let grow = &grad_output[i];
            let (mean, variance) = self.row_stats(row);
            let std_dev = variance.add(self.eps).sqrt();
            let mut k: usize = 0;
            while k < self.dim
                invariant
                    self.wf(),
                    row@.len() == self.dim,
                    grow@.len() == self.dim,
                    gg@.len() == self.dim,
                    gb@.len() == self.dim,
                    0 <= k <= self.dim,
                decreases self.dim - k,
            {
                let normalized = row[k].sub(mean).div(std_dev);
                gg[k] = gg[k].add(grow[k].mul(normalized));
                gb[k] = gb[k].add(grow[k]);
                k = k + 1;
            }
            let mut d_norm: Vec<S> = Vec::new();
            k = 0;
            while k < self.dim
                invariant
                    self.wf(),
                    grow@.len() == self.dim,
                    0 <= k <= self.dim,
                    d_norm@.len() == k,
                decreases self.dim - k,
            {
                d_norm.push(grow[k].mul(self.gamma[k]));
                k = k + 1;
            }
            // d variance: sum of d_norm * (x - mean) * -1/2 * (variance + eps)^(-3/2)
            let std_cubed = std_dev.mul(std_dev).mul(std_dev);
            let half = S::one().div(S::from_usize(2));
            let mut d_variance = S::zero();
            k = 0;
            while k < self.dim
                invariant
                    self.wf(),
                    row@.len() == self.dim,
                    d_norm@.len() == self.dim,
                    0 <= k <= self.dim,
                decreases self.dim - k,
            {
                d_variance = d_variance.add(
                    d_norm[k].mul(row[k].sub(mean)).mul(half.neg()).div(std_cubed),
                );
                k = k + 1;
            }
            // d mean: -(sum of d_norm) / std + d_variance * sum of -2 (x - mean) / dim
            let two = S::from_usize(2);
            let mut d_norm_sum = S::zero();
            let mut d_centered_sum = S::zero();
            k = 0;
            while k < self.dim
                invariant
                    self.wf(),
                    row@.len() == self.dim,
                    d_norm@.len() == self.dim,
                    0 <= k <= self.dim,
                decreases self.dim - k,
            {
                d_norm_sum = d_norm_sum.add(d_norm[k]);
                d_centered_sum = d_centered_sum.add(two.neg().mul(row[k].sub(mean)));
                k = k + 1;
            }
            let d_mean = d_norm_sum.neg().div(std_dev).add(
                d_variance.mul(d_centered_sum).div(dim_s),
            );
            let mut girow: Vec<S> = Vec::new();
            k = 0;
            while k < self.dim
                invariant
                    self.wf(),
                    row@.len() == self.dim,
                    d_norm@.len() == self.dim,
                    0 <= k <= self.dim,
                    girow@.len() == k,
                decreases self.dim - k,
            {
                girow.push(
                    d_norm[k].div(std_dev).add(
                        d_variance.mul(two).mul(row[k].sub(mean)).div(dim_s),
                    ).add(d_mean.div(dim_s)),
                );
                k = k + 1;
            }
            grad_input.push(girow);
            i = i + 1;
        }
        self.grad_gamma = gg;
        self.grad_beta = gb;
        grad_input
    }

    /// The gradient buffers mirror the parameter buffers exactly.
    pub proof fn lemma_aligned(&self)
        requires
            self.wf(),
        ensures
            buffers_aligned(self.params(), self.grads()),
    {
    }

    /// Appends copies of the parameter buffers, in traversal order.
    pub fn append_params(&self, out: &mut Vec<Vec<S>>)
        requires
            self.wf(),
        ensures
            final(out)@.len() == old(out)@.len() + self.params().len(),
            views(final(out)@) == views(old(out)@) + self.params(),
    {
        let ghost orig = out@;
        out.push(copy_row(&self.gamma));
        out.push(copy_row(&self.beta));
        proof {
            assert(views(out@) =~= views(orig) + self.params());
        }
    }

    /// Appends copies of the gradient buffers, in the same order.
    pub fn append_grads(&self, out: &mut Vec<Vec<S>>)
        requires
            self.wf(),
        ensures
            final(out)@.len() == old(out)@.len() + self.grads().len(),
            views(final(out)@) == views(old(out)@) + self.grads(),
    {
        let ghost orig = out@;
        out.push(copy_row(&self.grad_gamma));
        out.push(copy_row(&self.grad_beta));
        proof {
            assert(views(out@) =~= views(orig) + self.grads());
        }
    }

    /// Replaces the parameter buffers with the slice of `src` that starts
    /// at `start`, leaving the gradient buffers untouched, and returns
    /// the position right after the slice.
    pub fn load_params(&mut self, src: &Vec<Vec<S>>, start: usize) -> (next: usize)
        requires
            old(self).wf(),
            start + old(self).params().len() <= src@.len(),
            forall|k: int| 0 <= k < old(self).params().len() ==> (#[trigger] src@[start + k])@.len()
                == old(self).params()[k].len(),
        ensures
            final(self).wf(),
            final(self).dim == old(self).dim,
            final(self).grads() == old(self).grads(),
            final(self).eps == old(self).eps,
            next == start + old(self).params().len(),
            final(self).params() == views(src@).subrange(start as int, next as int),
    {
        let avail = src.len();
        proof {
            assert(old(self).params()[0] == self.gamma@);
            assert(old(self).params()[1] == self.beta@);
            assert(src@[start + 0int]@.len() == old(self).params()[0].len());
            assert(src@[start + 1int]@.len() == old(self).params()[1].len());
        }
        self.gamma = copy_row(&src[start]);
        self.beta = copy_row(&src[start + 1]);
        proof {
            assert(self.params() =~= views(src@).subrange(start as int, start + 2int));
        }
        start + 2
    }
}

} // verus!
