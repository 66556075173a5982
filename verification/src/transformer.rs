use vstd::prelude::*;
use crate::attention::Attention;
use crate::config::Config;
use crate::feed_forward::FeedForward;
use crate::layer_norm::LayerNorm;
use crate::scalar::Scalar;
use crate::tensor::add_grids;
use crate::tensor::buffers_aligned;
use crate::tensor::copy_grid;
use crate::tensor::grid_wf;
use crate::tensor::lemma_aligned_concat;
use crate::tensor::views;

verus! {

/// One transformer block: attention, residual add, normalization, the
/// feed-forward block, a second residual add, and a second normalization.
///
/// The backward pass needs the exact rows each normalization saw, so the
/// block caches both residual sums of the most recent forward call; one
/// backward call consumes them. Both residual adds route their gradient
/// into both branches and sum the results, so gradient flow around each
/// block is accumulated correctly.
pub struct TransformerLayer<S> {
    pub attention: Attention<S>,
    pub feed_forward: FeedForward<S>,
    pub layer_norm1: LayerNorm<S>,
    pub layer_norm2: LayerNorm<S>,
    /// Input plus attention output: what the first normalization saw.
    pub res1: Vec<Vec<S>>,
    /// First normalization's output plus the feed-forward output: what
    /// the second normalization saw.
    pub res2: Vec<Vec<S>>,
    /// Whether the caches are filled and not yet consumed.
    pub primed: bool,
}

impl<S: Scalar> TransformerLayer<S> {
    pub open spec fn dim(&self) -> int {
        self.attention.dim()
    }

    pub open spec fn wf(&self) -> bool {
        &&& self.attention.wf()
        &&& self.feed_forward.wf()
        &&& self.layer_norm1.wf()
        &&& self.layer_norm2.wf()
        &&& self.feed_forward.in_dim() == self.dim()
        &&& self.feed_forward.out_dim() == self.dim()
        &&& self.layer_norm1.dim == self.dim()
        &&& self.layer_norm2.dim == self.dim()
    }

    /// Rows cached for the pending backward call.
    pub open spec fn cached_rows(&self) -> int {
        self.attention.cached_rows()
    }

    /// Caches are filled, mutually consistent, and not yet consumed.
    pub open spec fn primed(&self) -> bool {
        &&& self.primed
        &&& self.attention.primed()
        &&& self.feed_forward.primed()
        &&& self.feed_forward.cached_rows() == self.cached_rows()
        &&& self.res1@.len() == self.cached_rows()
        &&& grid_wf(self.res1@, self.dim())
        &&& self.res2@.len() == self.cached_rows()
        &&& grid_wf(self.res2@, self.dim())
    }

    /// The parameter buffers of the block, in forward order: attention,
    /// first normalization, feed-forward, second normalization.
    pub open spec fn params(&self) -> Seq<Seq<S>> {
        self.attention.params() + self.layer_norm1.params() + self.feed_forward.params()
            + self.layer_norm2.params()
    }

    /// The gradient buffers, in the same order as `params`.
    pub open spec fn grads(&self) -> Seq<Seq<S>> {
        self.attention.grads() + self.layer_norm1.grads() + self.feed_forward.grads()
            + self.layer_norm2.grads()
    }

    pub fn new(config: &Config, rng: &mut rand::rngs::StdRng) -> (r: TransformerLayer<S>)
        ensures
            r.wf(),
            r.dim() == config.embedding_dim,
            !r.primed,
    {
        TransformerLayer {
            attention: Attention::new(config, rng),
            feed_forward: FeedForward::new(config, rng),
            layer_norm1: LayerNorm::new(config.embedding_dim),
            layer_norm2: LayerNorm::new(config.embedding_dim),
            res1: Vec::new(),
            res2: Vec::new(),
            primed: false,
        }
    }

    /// Runs the block and caches both residual sums. The output has
    /// exactly the input's shape; parameters and gradients do not change.
    pub fn forward(&mut self, input: &Vec<Vec<S>>, rng: &mut rand::rngs::StdRng) -> (out: Vec<
        Vec<S>,
    >)
        requires
            old(self).wf(),
            grid_wf(input@, old(self).dim()),
        ensures
            final(self).wf(),
            final(self).dim() == old(self).dim(),
            final(self).params() == old(self).params(),
            final(self).grads() == old(self).grads(),
            out@.len() == input@.len(),
            grid_wf(out@, final(self).dim()),
            final(self).primed(),
            final(self).cached_rows() == input@.len(),
    {
        let dim = self.layer_norm1.dim;
        let attention_output = self.attention.forward(input, rng);
        let res1 = add_grids(input, &attention_output, dim);
        let norm1 = self.layer_norm1.forward(&res1);
        let feed_forward_output = self.feed_forward.forward(&norm1, rng);
        let res2 = add_grids(&norm1, &feed_forward_output, dim);
        let out = self.layer_norm2.forward(&res2);
        self.res1 = res1;
        self.res2 = res2;
        self.primed = true;
        out
    }

    /// Consumes the caches in exact reverse order: second normalization
    /// against the cached second residual sum, feed-forward, the first
    /// residual's gradient accumulation, first normalization against the
    /// cached first residual sum, attention, and the input residual's
    /// gradient accumulation. The result has exactly the shape of
    /// `grad_output`; parameters do not change.
    pub fn backward(&mut self, grad_output: &Vec<Vec<S>>) -> (grad_input: Vec<Vec<S>>)
        requires
            old(self).wf(),
            old(self).primed(),
            grad_output@.len() == old(self).cached_rows(),
            grid_wf(grad_output@, old(self).dim()),
        ensures
            final(self).wf(),
            final(self).dim() == old(self).dim(),
            final(self).params() == old(self).params(),
            grad_input@.len() == grad_output@.len(),
            grid_wf(grad_input@, final(self).dim()),
            !final(self).primed,
    {
        let dim = self.layer_norm1.dim;
        let grad_res2 = self.layer_norm2.backward(grad_output, &self.res2);
        let grad_ff = self.feed_forward.backward(&grad_res2);
        let grad_norm1 = add_grids(&grad_res2, &grad_ff, dim);
        let grad_res1 = self.layer_norm1.backward(&grad_norm1, &self.res1);
        let grad_attention = self.attention.backward(&grad_res1);
        let grad_input = add_grids(&grad_res1, &grad_attention, dim);
        self.primed = false;
        grad_input
    }

    /// The gradient buffers mirror the parameter buffers exactly.
    pub proof fn lemma_aligned(&self)
        requires
            self.wf(),
        ensures
            buffers_aligned(self.params(), self.grads()),
    {
        self.attention.lemma_aligned();
        self.layer_norm1.lemma_aligned();
        self.feed_forward.lemma_aligned();
        self.layer_norm2.lemma_aligned();
        lemma_aligned_concat(
            self.attention.params(),
            self.attention.grads(),
            self.layer_norm1.params(),
            self.layer_norm1.grads(),
        );
        lemma_aligned_concat(
            self.attention.params() + self.layer_norm1.params(),
            self.attention.grads() + self.layer_norm1.grads(),
            self.feed_forward.params(),
            self.feed_forward.grads(),
        );
        lemma_aligned_concat(
            self.attention.params() + self.layer_norm1.params() + self.feed_forward.params(),
            self.attention.grads() + self.layer_norm1.grads() + self.feed_forward.grads(),
            self.layer_norm2.params(),
            self.layer_norm2.grads(),
        );
    }

    /// Appends copies of the parameter buffers, in traversal order.
    pub fn append_params(&self, out: &mut Vec<Vec<S>>)
        requires
            self.wf(),
        ensures
            final(out)@.len() == old(out)@.len() + self.params().len(),
            views(final(out)@) == views(old(out)@) + self.params(),
    {
        let ghost orig = out@;
        self.attention.append_params(out);
        self.layer_norm1.append_params(out);
        self.feed_forward.append_params(out);
        self.layer_norm2.append_params(out);
        proof {
            assert(views(out@) =~= views(orig) + self.params());
        }
    }

    /// Appends copies of the gradient buffers, in the same order.
    pub fn append_grads(&self, out: &mut Vec<Vec<S>>)
        requires
            self.wf(),
        ensures
            final(out)@.len() == old(out)@.len() + self.grads().len(),
            views(final(out)@) == views(old(out)@) + self.grads(),
    {
        let ghost orig = out@;
        self.attention.append_grads(out);
        self.layer_norm1.append_grads(out);
        self.feed_forward.append_grads(out);
        self.layer_norm2.append_grads(out);
        proof {
            assert(views(out@) =~= views(orig) + self.grads());
        }
    }

    /// Replaces the parameter buffers with the slice of `src` that starts
    /// at `start`, leaving the gradient buffers untouched, and returns
    /// the position right after the slice.
    pub fn load_params(&mut self, src: &Vec<Vec<S>>, start: usize) -> (next: usize)
        requires
            old(self).wf(),
            start + old(self).params().len() <= src@.len(),
            forall|k: int| 0 <= k < old(self).params().len() ==> (#[trigger] src@[start + k])@.len()
                == old(self).params()[k].len(),
        ensures
            final(self).wf(),
            final(self).dim() == old(self).dim(),
            final(self).grads() == old(self).grads(),
            next == start + old(self).params().len(),
            final(self).params() == views(src@).subrange(start as int, next as int),
    {
        let ghost ap = old(self).attention.params();
        let ghost n1p = old(self).layer_norm1.params();
        let ghost fp = old(self).feed_forward.params();
        let ghost n2p = old(self).layer_norm2.params();
        proof {
            assert forall|k: int| 0 <= k < ap.len() implies (#[trigger] src@[start + k])@.len()
                == ap[k].len() by {
                assert(old(self).params()[k] == ap[k]);
            }
        }
        let n1 = self.attention.load_params(src, start);
        proof {
            assert forall|k: int| 0 <= k < n1p.len() implies (#[trigger] src@[n1 + k])@.len()
                == n1p[k].len() by {
                assert(old(self).params()[ap.len() + k] == n1p[k]);
                assert(src@[start + (ap.len() + k)]@.len() == old(self).params()[ap.len()
                    + k].len());
                assert(src@[n1 + k] == src@[start + (ap.len() + k)]);
            }
        }
        let n2 = self.layer_norm1.load_params(src, n1);
        proof {
            assert forall|k: int| 0 <= k < fp.len() implies (#[trigger] src@[n2 + k])@.len()
                == fp[k].len() by {
                assert(old(self).params()[ap.len() + n1p.len() + k] == fp[k]);
                assert(src@[start + (ap.len() + n1p.len() + k)]@.len() == old(self).params()[
                    ap.len() + n1p.len() + k
                ].len());
                assert(src@[n2 + k] == src@[start + (ap.len() + n1p.len() + k)]);
            }
        }
        let n3 = self.feed_forward.load_params(src, n2);
        proof {
            assert forall|k: int| 0 <= k < n2p.len() implies (#[trigger] src@[n3 + k])@.len()
                == n2p[k].len() by {
                assert(old(self).params()[ap.len() + n1p.len() + fp.len() + k] == n2p[k]);
                assert(src@[start + (ap.len() + n1p.len() + fp.len() + k)]@.len() == old(
                    self,
                ).params()[ap.len() + n1p.len() + fp.len() + k].len());
                assert(src@[n3 + k] == src@[start + (ap.len() + n1p.len() + fp.len() + k)]);
            }
        }
        let n4 = self.layer_norm2.load_params(src, n3);
        proof {
            assert(self.params() =~= views(src@).subrange(start as int, n4 as int));
        }
        n4
    }
}

/// The parameter buffers of a stack of blocks, first block first.
pub open spec fn params_of_layers<S: Scalar>(layers: Seq<TransformerLayer<S>>) -> Seq<Seq<S>>
    decreases layers.len(),
{
    if layers.len() == 0 {
        Seq::empty()
    } else {
        params_of_layers(layers.drop_last()) + layers.last().params()
    }
}

/// The gradient buffers of a stack of blocks, in the same order.
pub open spec fn grads_of_layers<S: Scalar>(layers: Seq<TransformerLayer<S>>) -> Seq<Seq<S>>
    decreases layers.len(),
{
    if layers.len() == 0 {
        Seq::empty()
    } else {
        grads_of_layers(layers.drop_last()) + layers.last().grads()
    }
}

/// Stacks whose blocks hold equal parameter lists hold equal parameter
/// lists as wholes; likewise for the gradients.
pub proof fn lemma_stack_buffers_pointwise<S: Scalar>(
    a: Seq<TransformerLayer<S>>,
    b: Seq<TransformerLayer<S>>,
)
    requires
        a.len() == b.len(),
        forall|x: int| 0 <= x < a.len() ==> (#[trigger] a[x]).params() == b[x].params(),
        forall|x: int| 0 <= x < a.len() ==> (#[trigger] a[x]).grads() == b[x].grads(),
    ensures
        params_of_layers(a) == params_of_layers(b),
        grads_of_layers(a) == grads_of_layers(b),
    decreases a.len(),
{
    if a.len() > 0 {
        assert(forall|x: int| 0 <= x < a.len() - 1 ==> #[trigger] a.drop_last()[x]
            == a[x] && b.drop_last()[x] == b[x]);
        lemma_stack_buffers_pointwise(a.drop_last(), b.drop_last());
    }
}

/// An ordered stack of transformer blocks; the backward pass traverses
/// them in strict reverse order. The stack caches its final output for
/// the model's outer layers.
pub struct Transformer<S> {
    pub embedding_dim: usize,
    pub layers: Vec<TransformerLayer<S>>,
    /// The most recent forward call's result.
    pub output: Vec<Vec<S>>,
    /// Whether every block's cache is filled and not yet consumed.
    pub primed: bool,
}

impl<S: Scalar> Transformer<S> {
    pub open spec fn wf(&self) -> bool {
        forall|x: int| 0 <= x < self.layers@.len() ==> (#[trigger] self.layers@[x]).wf()
            && self.layers@[x].dim() == self.embedding_dim
    }

    /// Rows cached for the pending backward call.
    pub open spec fn cached_rows(&self) -> int {
        self.output@.len() as int
    }

    pub open spec fn primed(&self) -> bool {
        &&& self.primed
        &&& forall|x: int| 0 <= x < self.layers@.len() ==> (#[trigger] self.layers@[x]).primed()
            && self.layers@[x].cached_rows() == self.cached_rows()
        &&& grid_wf(self.output@, self.embedding_dim as int)
    }

    /// The parameter buffers of all blocks, first block first.
    pub open spec fn params(&self) -> Seq<Seq<S>> {
        params_of_layers(self.layers@)
    }

    /// The gradient buffers, in the same order as `params`.
    pub open spec fn grads(&self) -> Seq<Seq<S>> {
        grads_of_layers(self.layers@)
    }

    pub fn new(config: &Config, rng: &mut rand::rngs::StdRng) -> (r: Transformer<S>)
        ensures
            r.wf(),
            r.embedding_dim == config.embedding_dim,
            r.layers@.len() == config.num_layers,
            !r.primed,
    {
        let mut layers: Vec<TransformerLayer<S>> = Vec::new();
        let mut l: usize = 0;
        while l < config.num_layers
            invariant
                0 <= l <= config.num_layers,
                layers@.len() == l,
                forall|x: int| 0 <= x < l ==> (#[trigger] layers@[x]).wf() && layers@[x].dim()
                    == config.embedding_dim,
            decreases config.num_layers - l,
        {
            let layer = TransformerLayer::new(config, rng);
            layers.push(layer);
            l = l + 1;
        }
        Transformer { embedding_dim: config.embedding_dim, layers, output: Vec::new(), primed: false }
    }

    /// Runs the blocks in order and caches the final output. The output
    /// has exactly the input's shape; parameters and gradients do not
    /// change.
    pub fn forward(&mut self, input: &Vec<Vec<S>>, rng: &mut rand::rngs::StdRng) -> (out: Vec<
        Vec<S>,
    >)
        requires
            old(self).wf(),
            grid_wf(input@, old(self).embedding_dim as int),
        ensures
            final(self).wf(),
            final(self).embedding_dim == old(self).embedding_dim,
            final(self).layers@.len() == old(self).layers@.len(),
            final(self).params() == old(self).params(),
            final(self).grads() == old(self).grads(),
            out@.len() == input@.len(),
            grid_wf(out@, final(self).embedding_dim as int),
            final(self).primed(),
            final(self).cached_rows() == input@.len(),
            views(final(self).output@) == views(out@),
    {
        let n = input.len();
        let count = self.layers.len();
        let mut cur = copy_grid(input);
        let mut l: usize = 0;
        while l < count
            invariant
                self.wf(),
                self.embedding_dim == old(self).embedding_dim,
                count == self.layers@.len(),
                self.layers@.len() == old(self).layers@.len(),
                0 <= l <= count,
                cur@.len() == n,
                grid_wf(cur@, self.embedding_dim as int),
                forall|x: int| l <= x < count ==> #[trigger] self.layers@[x]
                    == old(self).layers@[x],
                forall|x: int| 0 <= x < l ==> (#[trigger] self.layers@[x]).params()
                    == old(self).layers@[x].params() && self.layers@[x].grads()
                    == old(self).layers@[x].grads(),
                forall|x: int| 0 <= x < l ==> (#[trigger] self.layers@[x]).primed()
                    && self.layers@[x].cached_rows() == n,
            decreases count - l,
        {
            cur = self.layers[l].forward(&cur, rng);
            l = l + 1;
        }
        self.output = copy_grid(&cur);
        self.primed = true;
        proof {
            lemma_stack_buffers_pointwise(self.layers@, old(self).layers@);
        }
        cur
    }

    /// Walks the blocks in strict reverse order, handing each one's
    /// backward the gradient the block behind it produced. The result has
    /// exactly the shape of `grad_output`; parameters do not change.
    pub fn backward(&mut self, grad_output: &Vec<Vec<S>>) -> (grad_input: Vec<Vec<S>>)
        requires
            old(self).wf(),
            old(self).primed(),
            grad_output@.len() == old(self).cached_rows(),
            grid_wf(grad_output@, old(self).embedding_dim as int),
        ensures
            final(self).wf(),
            final(self).embedding_dim == old(self).embedding_dim,
            final(self).params() == old(self).params(),
            grad_input@.len() == grad_output@.len(),
            grid_wf(grad_input@, final(self).embedding_dim as int),
            !final(self).primed,
    {
        let n = grad_output.len();
        let count = self.layers.len();
        let mut gcur = copy_grid(grad_output);
        let mut l: usize = count;
        while l > 0
            invariant
                self.wf(),
                self.embedding_dim == old(self).embedding_dim,
                count == self.layers@.len(),
                0 <= l <= count,
                gcur@.len() == n,
                grid_wf(gcur@, self.embedding_dim as int),
                forall|x: int| 0 <= x < l ==> #[trigger] self.layers@[x] == old(self).layers@[x],
                forall|x: int| 0 <= x < l ==> (#[trigger] self.layers@[x]).primed()
                    && self.layers@[x].cached_rows() == n,
                forall|x: int| l <= x < count ==> (#[trigger] self.layers@[x]).params()
                    == old(self).layers@[x].params(),
            decreases l,
        {
            l = l - 1;
            gcur = self.layers[l].backward(&gcur);
        }
        self.primed = false;
        proof {
            lemma_stack_params_pointwise_only(self.layers@, old(self).layers@);
        }
        gcur
    }

    /// The gradient buffers mirror the parameter buffers exactly.
    pub proof fn lemma_aligned(&self)
        requires
            self.wf(),
        ensures
            buffers_aligned(self.params(), self.grads()),
    {
        lemma_stack_aligned(self.layers@);
    }

    /// Appends copies of the parameter buffers, block after block.
    pub fn append_params(&self, out: &mut Vec<Vec<S>>)
        requires
            self.wf(),
        ensures
            final(out)@.len() == old(out)@.len() + self.params().len(),
            views(final(out)@) == views(old(out)@) + self.params(),
    {
        let ghost orig = out@;
        let mut l: usize = 0;
        while l < self.layers.len()
            invariant
                self.wf(),
                0 <= l <= self.layers@.len(),
                views(out@) == views(orig) + params_of_layers(self.layers@.take(l as int)),
            decreases self.layers@.len() - l,
        {
            self.layers[l].append_params(out);
            proof {
                assert(self.layers@.take(l + 1int).drop_last() =~= self.layers@.take(l as int));
                assert(self.layers@.take(l + 1int).last() == self.layers@[l as int]);
                assert(views(out@) =~= views(orig) + params_of_layers(self.layers@.take(l + 1int)));
            }
            l = l + 1;
        }
        proof {
            assert(self.layers@.take(self.layers@.len() as int) =~= self.layers@);
            assert(final(out)@.len() == old(out)@.len() + self.params().len()) by {
                assert(views(out@).len() == out@.len());
            }
        }
    }

    /// Appends copies of the gradient buffers, in the same order.
    pub fn append_grads(&self, out: &mut Vec<Vec<S>>)
        requires
            self.wf(),
        ensures
            final(out)@.len() == old(out)@.len() + self.grads().len(),
            views(final(out)@) == views(old(out)@) + self.grads(),
    {
        let ghost orig = out@;
        let mut l: usize = 0;
        while l < self.layers.len()
            invariant
                self.wf(),
                0 <= l <= self.layers@.len(),
                views(out@) == views(orig) + grads_of_layers(self.layers@.take(l as int)),
            decreases self.layers@.len() - l,
        {
            self.layers[l].append_grads(out);
            proof {
                assert(self.layers@.take(l + 1int).drop_last() =~= self.layers@.take(l as int));
                assert(self.layers@.take(l + 1int).last() == self.layers@[l as int]);
                assert(views(out@) =~= views(orig) + grads_of_layers(self.layers@.take(l + 1int)));
            }
            l = l + 1;
        }
        proof {
            assert(self.layers@.take(self.layers@.len() as int) =~= self.layers@);
            assert(final(out)@.len() == old(out)@.len() + self.grads().len()) by {
                assert(views(out@).len() == out@.len());
            }
        }
    }

    /// Replaces the parameter buffers with the slice of `src` that starts
    /// at `start`, block after block, leaving the gradient buffers
    /// untouched, and returns the position right after the slice.
    pub fn load_params(&mut self, src: &Vec<Vec<S>>, start: usize) -> (next: usize)
        requires
            old(self).wf(),
            start + old(self).params().len() <= src@.len(),
            forall|k: int| 0 <= k < old(self).params().len() ==> (#[trigger] src@[start + k])@.len()
                == old(self).params()[k].len(),
        ensures
            final(self).wf(),
            final(self).embedding_dim == old(self).embedding_dim,
            final(self).layers@.len() == old(self).layers@.len(),
            final(self).grads() == old(self).grads(),
            next == start + old(self).params().len(),
            final(self).params() == views(src@).subrange(start as int, next as int),
    {
        let ghost olds = old(self).layers@;
        let avail = src.len();
        let count = self.layers.len();
        let mut cur = start;
        let mut l: usize = 0;
        while l < count
            invariant
                self.embedding_dim == old(self).embedding_dim,
                avail == src@.len(),
                count == self.layers@.len(),
                olds.len() == count,
                start + params_of_layers(olds).len() <= src@.len(),
                forall|k: int| 0 <= k < params_of_layers(olds).len() ==> (#[trigger] src@[start
                    + k])@.len() == params_of_layers(olds)[k].len(),
                0 <= l <= count,
                cur == start + params_of_layers(olds.take(l as int)).len(),
                forall|x: int| l <= x < count ==> #[trigger] self.layers@[x] == olds[x],
                forall|x: int| 0 <= x < count ==> (#[trigger] self.layers@[x]).wf()
                    && self.layers@[x].dim() == self.embedding_dim,
                forall|x: int| 0 <= x < l ==> (#[trigger] self.layers@[x]).grads()
                    == olds[x].grads(),
                params_of_layers(self.layers@.take(l as int)) == views(src@).subrange(
                    start as int,
                    cur as int,
                ),
            decreases count - l,
        {
            let ghost pre = params_of_layers(olds.take(l as int)).len() as int;
            let ghost lp = olds[l as int].params();
            proof {
                assert(olds.take(l + 1int).drop_last() =~= olds.take(l as int));
                assert(olds.take(l + 1int).last() == olds[l as int]);
                assert(params_of_layers(olds.take(l + 1int)) == params_of_layers(
                    olds.take(l as int),
                ) + lp);
                lemma_stack_prefix(olds, l + 1int);
                assert forall|k: int| 0 <= k < lp.len() implies (#[trigger] src@[cur + k])@.len()
                    == lp[k].len() by {
                    assert(params_of_layers(olds)[pre + k] == params_of_layers(olds.take(
                        l + 1int,
                    ))[pre + k]);
                    assert(params_of_layers(olds.take(l + 1int))[pre + k] == lp[k]);
                    assert(src@[start + (pre + k)]@.len() == params_of_layers(olds)[pre + k].len());
                    assert(src@[cur + k] == src@[start + (pre + k)]);
                }
            }
            let ghost prev_layers = self.layers@;
            let next_cur = self.layers[l].load_params(src, cur);
            proof {
                assert(self.layers@.take(l as int) =~= prev_layers.take(l as int));
                assert(params_of_layers(self.layers@.take(l as int)) == views(src@).subrange(
                    start as int,
                    cur as int,
                ));
                assert(next_cur == start + params_of_layers(olds.take(l + 1int)).len());
                assert(params_of_layers(olds.take(l + 1int)).len() <= params_of_layers(olds).len());
                assert(next_cur <= src@.len());
                assert(views(src@).subrange(start as int, next_cur as int) =~= views(src@).subrange(
                    start as int,
                    cur as int,
                ) + views(src@).subrange(cur as int, next_cur as int));
                assert(params_of_layers(self.layers@.take(l + 1int)) =~= views(src@).subrange(
                    start as int,
                    next_cur as int,
                )) by {
                    assert(self.layers@.take(l + 1int).drop_last() =~= self.layers@.take(l as int));
                    assert(self.layers@.take(l + 1int).last() == self.layers@[l as int]);
                    assert(self.layers@[l as int].params() == views(src@).subrange(
                        cur as int,
                        next_cur as int,
                    ));
                    assert(params_of_layers(self.layers@.take(l + 1int)) == params_of_layers(
                        self.layers@.take(l as int),
                    ) + self.layers@[l as int].params());
                }
            }
            cur = next_cur;
            l = l + 1;
        }
        proof {
            assert(olds.take(count as int) =~= olds);
            assert(self.layers@.take(count as int) =~= self.layers@);
            lemma_stack_grads_pointwise_only(self.layers@, olds);
        }
        cur
    }
}

/// As `lemma_stack_buffers_pointwise`, for the parameter lists alone.
pub proof fn lemma_stack_params_pointwise_only<S: Scalar>(
    a: Seq<TransformerLayer<S>>,
    b: Seq<TransformerLayer<S>>,
)
    requires
        a.len() == b.len(),
        forall|x: int| 0 <= x < a.len() ==> (#[trigger] a[x]).params() == b[x].params(),
    ensures
        params_of_layers(a) == params_of_layers(b),
    decreases a.len(),
{
    if a.len() > 0 {
        assert(forall|x: int| 0 <= x < a.len() - 1 ==> #[trigger] a.drop_last()[x]
            == a[x] && b.drop_last()[x] == b[x]);
        lemma_stack_params_pointwise_only(a.drop_last(), b.drop_last());
    }
}

/// As `lemma_stack_buffers_pointwise`, for the gradient lists alone.
pub proof fn lemma_stack_grads_pointwise_only<S: Scalar>(
    a: Seq<TransformerLayer<S>>,
    b: Seq<TransformerLayer<S>>,
)
    requires
        a.len() == b.len(),
        forall|x: int| 0 <= x < a.len() ==> (#[trigger] a[x]).grads() == b[x].grads(),
    ensures
        grads_of_layers(a) == grads_of_layers(b),
    decreases a.len(),
{
    if a.len() > 0 {
        assert(forall|x: int| 0 <= x < a.len() - 1 ==> #[trigger] a.drop_last()[x]
            == a[x] && b.drop_last()[x] == b[x]);
        lemma_stack_grads_pointwise_only(a.drop_last(), b.drop_last());
    }
}

/// The parameter list of a prefix of the stack is a prefix of the
/// stack's parameter list.
pub proof fn lemma_stack_prefix<S: Scalar>(s: Seq<TransformerLayer<S>>, l: int)
    requires
        0 <= l <= s.len(),
    ensures
        params_of_layers(s.take(l)).len() <= params_of_layers(s).len(),
        forall|j: int| 0 <= j < params_of_layers(s.take(l)).len() ==> #[trigger] params_of_layers(
            s,
        )[j] == params_of_layers(s.take(l))[j],
    decreases s.len() - l,
{
    if l == s.len() {
        assert(s.take(l) =~= s);
    } else {
        assert(s.take(l + 1).drop_last() =~= s.take(l));
        assert(s.take(l + 1).last() == s[l]);
        assert(params_of_layers(s.take(l + 1)) == params_of_layers(s.take(l)) + s[l].params());
        lemma_stack_prefix(s, l + 1);
        assert forall|j: int| 0 <= j < params_of_layers(s.take(l)).len()
            implies #[trigger] params_of_layers(s)[j] == params_of_layers(s.take(l))[j] by {
            assert(params_of_layers(s)[j] == params_of_layers(s.take(l + 1))[j]);
            assert(params_of_layers(s.take(l + 1))[j] == (params_of_layers(s.take(l))
                + s[l].params())[j]);
        }
    }
}

/// Every block aligned means the whole stack aligned.
pub proof fn lemma_stack_aligned<S: Scalar>(s: Seq<TransformerLayer<S>>)
    requires
        forall|x: int| 0 <= x < s.len() ==> (#[trigger] s[x]).wf(),
    ensures
        buffers_aligned(params_of_layers(s), grads_of_layers(s)),
    decreases s.len(),
{
    if s.len() == 0 {
    } else {
        assert(forall|x: int| 0 <= x < s.len() - 1 ==> #[trigger] s.drop_last()[x] == s[x]);
        lemma_stack_aligned(s.drop_last());
        s.last().lemma_aligned();
        lemma_aligned_concat(
            params_of_layers(s.drop_last()),
            grads_of_layers(s.drop_last()),
            s.last().params(),
            s.last().grads(),
        );
    }
}

} // verus!
