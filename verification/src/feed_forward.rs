use vstd::prelude::*;
use crate::config::Config;
use crate::dropout::Dropout;
use crate::gelu::gelu;
use crate::linear::Linear;
use crate::scalar::Scalar;
use crate::tensor::buffers_aligned;
use crate::tensor::grid_wf;
use crate::tensor::lemma_aligned_concat;
use crate::tensor::views;

verus! {

/// The position-wise two-layer perceptron of a transformer block: a
/// widening affine transform, the smooth nonlinearity, a narrowing affine
/// transform, and dropout on the result.
pub struct FeedForward<S> {
    pub linear1: Linear<S>,
    pub linear2: Linear<S>,
    pub dropout: Dropout<S>,
}

impl<S: Scalar> FeedForward<S> {
    pub open spec fn in_dim(&self) -> int {
        self.linear1.input_size as int
    }

    pub open spec fn out_dim(&self) -> int {
        self.linear2.output_size as int
    }

    pub open spec fn wf(&self) -> bool {
        &&& self.linear1.wf()
        &&& self.linear2.wf()
        &&& self.linear1.output_size == self.linear2.input_size
    }

    /// Rows cached for the pending backward call.
    pub open spec fn cached_rows(&self) -> int {
        self.linear1.cached_rows()
    }

    /// Caches are filled, mutually consistent, and not yet consumed.
    pub open spec fn primed(&self) -> bool {
        &&& self.linear1.primed
        &&& self.linear2.primed
        &&& self.dropout.primed
        &&& self.linear2.cached_rows() == self.cached_rows()
        &&& self.dropout.mask@.len() == self.cached_rows()
        &&& forall|i: int| 0 <= i < self.dropout.mask@.len() ==> (#[trigger] self.dropout.mask@[
            i
        ])@.len() == self.out_dim()
    }

    /// The parameter buffers of both affine transforms, first one first.
    pub open spec fn params(&self) -> Seq<Seq<S>> {
        self.linear1.params() + self.linear2.params()
    }

    /// The gradient buffers, in the same order as `params`.
    pub open spec fn grads(&self) -> Seq<Seq<S>> {
        self.linear1.grads() + self.linear2.grads()
    }

    pub fn new(config: &Config, rng: &mut rand::rngs::StdRng) -> (r: FeedForward<S>)
        ensures
            r.wf(),
            r.in_dim() == config.embedding_dim,
            r.out_dim() == config.embedding_dim,
            !r.linear1.primed,
    {
        FeedForward {
            linear1: Linear::new(config.embedding_dim, config.feed_forward_dim, rng),
            linear2: Linear::new(config.feed_forward_dim, config.embedding_dim, rng),
            dropout: Dropout::new(config.dropout_threshold),
        }
    }

    /// Runs the block on every row and caches what the backward pass
    /// consumes; the output has one row of `out_dim` scalars per input
    /// row, and no parameter or gradient buffer changes.
    pub fn forward(&mut self, input: &Vec<Vec<S>>, rng: &mut rand::rngs::StdRng) -> (out: Vec<
        Vec<S>,
    >)
        requires
            old(self).wf(),
            grid_wf(input@, old(self).in_dim()),
        ensures
            final(self).wf(),
            final(self).in_dim() == old(self).in_dim(),
            final(self).out_dim() == old(self).out_dim(),
            final(self).params() == old(self).params(),
            final(self).grads() == old(self).grads(),
            out@.len() == input@.len(),
            grid_wf(out@, final(self).out_dim()),
            final(self).primed(),
            final(self).cached_rows() == input@.len(),
    {
        let hidden = self.linear1.forward(input);
        let activated = gelu_grid(&hidden);
        let projected = self.linear2.forward(&activated);
        self.dropout.forward(&projected, rng)
    }

    /// Consumes the caches: dropout backward, the narrowing transform's
    /// backward, the nonlinearity's slope taken as `1 - tanh(h)^2` of the
    /// first transform's cached output `h` (the hyperbolic shortcut this
    /// design fixes for the backward pass, rather than the exact
    /// derivative of `gelu`), then the widening transform's backward,
    /// whose result is returned. One row of `in_dim` scalars per incoming
    /// row; parameters do not change.
    pub fn backward(&mut self, grad_output: &Vec<Vec<S>>) -> (grad_input: Vec<Vec<S>>)
        requires
            old(self).wf(),
            old(self).primed(),
            grad_output@.len() == old(self).cached_rows(),
            grid_wf(grad_output@, old(self).out_dim()),
        ensures
            final(self).wf(),
            final(self).in_dim() == old(self).in_dim(),
            final(self).out_dim() == old(self).out_dim(),
            final(self).params() == old(self).params(),
            grad_input@.len() == grad_output@.len(),
            grid_wf(grad_input@, final(self).in_dim()),
            !final(self).linear1.primed,
    {
        let grad_dropout = self.dropout.backward(grad_output);
        proof {
            assert(grid_wf(grad_dropout@, self.out_dim()));
        }
        let grad_projected = self.linear2.backward(&grad_dropout);
        let grad_activated = tanh_slope_grid(&grad_projected, &self.linear1.output);
        self.linear1.backward(&grad_activated)
    }

    /// The gradient buffers mirror the parameter buffers exactly.
    pub proof fn lemma_aligned(&self)
        requires
            self.wf(),
        ensures
            buffers_aligned(self.params(), self.grads()),
    {
        self.linear1.lemma_aligned();
        self.linear2.lemma_aligned();
        lemma_aligned_concat(
            self.linear1.params(),
            self.linear1.grads(),
            self.linear2.params(),
            self.linear2.grads(),
        );
    }

    /// Appends copies of the parameter buffers, in traversal order.
    pub fn append_params(&self, out: &mut Vec<Vec<S>>)
        requires
            self.wf(),
        ensures
            final(out)@.len() == old(out)@.len() + self.params().len(),
            views(final(out)@) == views(old(out)@) + self.params(),
    {
        let ghost orig = out@;
        self.linear1.append_params(out);
        self.linear2.append_params(out);
        proof {
            assert(views(out@) =~= views(orig) + self.params());
        }
    }

    /// Appends copies of the gradient buffers, in the same order.
    pub fn append_grads(&self, out: &mut Vec<Vec<S>>)
        requires
            self.wf(),
        ensures
            final(out)@.len() == old(out)@.len() + self.grads().len(),
            views(final(out)@) == views(old(out)@) + self.grads(),
    {
        let ghost orig = out@;
        self.linear1.append_grads(out);
        self.linear2.append_grads(out);
        proof {
            assert(views(out@) =~= views(orig) + self.grads());
        }
    }

    /// Replaces the parameter buffers with the slice of `src` that starts
    /// at `start`, leaving the gradient buffers untouched, and returns
    /// the position right after the slice.
    pub fn load_params(&mut self, src: &Vec<Vec<S>>, start: usize) -> (next: usize)
        requires
            old(self).wf(),
            start + old(self).params().len() <= src@.len(),
            forall|k: int| 0 <= k < old(self).params().len() ==> (#[trigger] src@[start + k])@.len()
                == old(self).params()[k].len(),
        ensures
            final(self).wf(),
            final(self).in_dim() == old(self).in_dim(),
            final(self).out_dim() == old(self).out_dim(),
            final(self).grads() == old(self).grads(),
            next == start + old(self).params().len(),
            final(self).params() == views(src@).subrange(start as int, next as int),
    {
        let ghost p1 = old(self).linear1.params();
        let ghost p2 = old(self).linear2.params();
        proof {
            assert forall|k: int| 0 <= k < p1.len() implies (#[trigger] src@[start + k])@.len()
                == p1[k].len() by {
                assert(old(self).params()[k] == p1[k]);
            }
        }
        let n1 = self.linear1.load_params(src, start);
        proof {
            assert forall|k: int| 0 <= k < p2.len() implies (#[trigger] src@[n1 + k])@.len()
                == p2[k].len() by {
                assert(old(self).params()[p1.len() + k] == p2[k]);
                assert(src@[start + (p1.len() + k)]@.len() == old(self).params()[p1.len()
                    + k].len());
                assert(src@[n1 + k] == src@[start + (p1.len() + k)]);
            }
        }
        let n2 = self.linear2.load_params(src, n1);
        proof {
            assert(self.params() =~= views(src@).subrange(start as int, n2 as int));
        }
        n2
    }
}

/// The nonlinearity applied to every cell.
fn gelu_grid<S: Scalar>(m: &Vec<Vec<S>>) -> (r: Vec<Vec<S>>)
    ensures
        r@.len() == m@.len(),
        forall|i: int| 0 <= i < m@.len() ==> (#[trigger] r@[i])@.len() == m@[i]@.len(),
{
    let mut r: Vec<Vec<S>> = Vec::new();
    let mut i: usize = 0;
    while i < m.len()
        invariant
            0 <= i <= m@.len(),
            r@.len() == i,
            forall|x: int| 0 <= x < i ==> (#[trigger] r@[x])@.len() == m@[x]@.len(),
        decreases m@.len() - i,
    {
        let row = &m[i];
        let mut orow: Vec<S> = Vec::new();
        let mut k: usize = 0;
        while k < row.len()
            invariant
                0 <= k <= row@.len(),
                orow@.len() == k,
            decreases row@.len() - k,
        {
            orow.push(gelu(row[k]));
            k = k + 1;
        }
        r.push(orow);
        i = i + 1;
    }
    r
}

/// Each incoming gradient cell scaled by `1 - tanh(h)^2` of the matching
/// cached cell `h`.
fn tanh_slope_grid<S: Scalar>(g: &Vec<Vec<S>>, cached: &Vec<Vec<S>>) -> (r: Vec<Vec<S>>)
    requires
        g@.len() == cached@.len(),
        forall|i: int| 0 <= i < g@.len() ==> (#[trigger] g@[i])@.len() == cached@[i]@.len(),
    ensures
        r@.len() == g@.len(),
        forall|i: int| 0 <= i < g@.len() ==> (#[trigger] r@[i])@.len() == g@[i]@.len(),
{
    let mut r: Vec<Vec<S>> = Vec::new();
    let mut i: usize = 0;
    while i < g.len()
        invariant
            g@.len() == cached@.len(),
            forall|x: int| 0 <= x < g@.len() ==> (#[trigger] g@[x])@.len() == cached@[x]@.len(),
            0 <= i <= g@.len(),
            r@.len() == i,
            forall|x: int| 0 <= x < i ==> (#[trigger] r@[x])@.len() == g@[x]@.len(),
        decreases g@.len() - i,
    {
        let grow = &g[i];
        let crow = &cached[i];
        let mut orow: Vec<S> = Vec::new();
        let mut k: usize = 0;
        while k < grow.len()
            invariant
                grow@.len() == crow@.len(),
                0 <= k <= grow@.len(),
                orow@.len() == k,
            decreases grow@.len() - k,
        {
            let t = crow[k].tanh();
            orow.push(grow[k].mul(S::one().sub(t.mul(t))));
            k = k + 1;
        }
        r.push(orow);
        i = i + 1;
    }
    r
}

} // verus!
