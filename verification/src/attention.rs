use vstd::prelude::*;
use crate::HEAD_DIM;
use crate::config::Config;
use crate::dropout::Dropout;
use crate::linear::Linear;
use crate::scalar::Scalar;
use crate::tensor::buffers_aligned;
use crate::tensor::grid_wf;
use crate::tensor::lemma_aligned_concat;
use crate::tensor::views;
use crate::tensor::softmax;
use crate::tensor::zeros_grid;
use vstd::arithmetic::div_mod::lemma_fundamental_div_mod;
use vstd::arithmetic::mul::lemma_mul_inequality;

verus! {

/// Multi-head scaled dot-product self-attention.
///
/// Four affine transforms project every row into queries, keys, values
/// and the final output; each head reads its own `HEAD_DIM`-wide slice of
/// the projections, and the head count is derived as
/// `embedding_dim / HEAD_DIM`. Head `h`'s attention weights for a call on
/// `n` rows are cached as rows `h * n .. (h + 1) * n` of `weights`, and
/// the dropout layer holds the matching mask; one backward call consumes
/// those caches.
///
/// Two fixed choices of this design: the dot products are scaled by
/// `1 / sqrt(embedding_dim)`, the full embedding width rather than the
/// head width; and the backward pass returns only the query branch's
/// input gradient, treating the key and value branches as detached - they
/// still accumulate their own parameter gradients.
pub struct Attention<S> {
    pub query_matrix: Linear<S>,
    pub key_matrix: Linear<S>,
    pub value_matrix: Linear<S>,
    pub output_matrix: Linear<S>,
    pub dropout: Dropout<S>,
    /// The per-head softmax outputs of the most recent forward call,
    /// stacked head after head.
    pub weights: Vec<Vec<S>>,
    /// Whether the caches are filled and not yet consumed.
    pub primed: bool,
}

impl<S: Scalar> Attention<S> {
    /// The embedding width the block operates on.
    pub open spec fn dim(&self) -> int {
        self.query_matrix.output_size as int
    }

    /// Heads actually used, derived from the embedding width.
    pub open spec fn num_heads(&self) -> int {
        self.dim() / (HEAD_DIM as int)
    }

    pub open spec fn wf(&self) -> bool {
        &&& self.query_matrix.wf()
        &&& self.key_matrix.wf()
        &&& self.value_matrix.wf()
        &&& self.output_matrix.wf()
        &&& self.query_matrix.input_size == self.dim()
        &&& self.key_matrix.input_size == self.dim() && self.key_matrix.output_size == self.dim()
        &&& self.value_matrix.input_size == self.dim() && self.value_matrix.output_size
            == self.dim()
        &&& self.output_matrix.input_size == self.dim() && self.output_matrix.output_size
            == self.dim()
    }

    /// Rows cached for the pending backward call.
    pub open spec fn cached_rows(&self) -> int {
        self.query_matrix.cached_rows()
    }

    /// Caches are filled, mutually consistent, and not yet consumed.
    pub open spec fn primed(&self) -> bool {
        &&& self.primed
        &&& self.query_matrix.primed
        &&& self.key_matrix.primed
        &&& self.value_matrix.primed
        &&& self.output_matrix.primed
        &&& self.dropout.primed
        &&& self.key_matrix.cached_rows() == self.cached_rows()
        &&& self.value_matrix.cached_rows() == self.cached_rows()
        &&& self.output_matrix.cached_rows() == self.cached_rows()
        &&& self.weights@.len() == self.num_heads() * self.cached_rows()
        &&& grid_wf(self.weights@, self.cached_rows())
        &&& self.dropout.mask@.len() == self.weights@.len()
        &&& forall|i: int| 0 <= i < self.dropout.mask@.len() ==> (#[trigger] self.dropout.mask@[
            i
        ])@.len() == self.cached_rows()
    }

    /// The parameter buffers of the four transforms: query, key, value,
    /// output.
    pub open spec fn params(&self) -> Seq<Seq<S>> {
        self.query_matrix.params() + self.key_matrix.params() + self.value_matrix.params()
            + self.output_matrix.params()
    }

    /// The gradient buffers, in the same order as `params`.
    pub open spec fn grads(&self) -> Seq<Seq<S>> {
        self.query_matrix.grads() + self.key_matrix.grads() + self.value_matrix.grads()
            + self.output_matrix.grads()
    }

    pub fn new(config: &Config, rng: &mut rand::rngs::StdRng) -> (r: Attention<S>)
        ensures
            r.wf(),
            r.dim() == config.embedding_dim,
            !r.primed,
    {
        Attention {
            query_matrix: Linear::new(config.embedding_dim, config.embedding_dim, rng),
            key_matrix: Linear::new(config.embedding_dim, config.embedding_dim, rng),
            value_matrix: Linear::new(config.embedding_dim, config.embedding_dim, rng),
            output_matrix: Linear::new(config.embedding_dim, config.embedding_dim, rng),
            dropout: Dropout::new(config.dropout_threshold),
            weights: Vec::new(),
            primed: false,
        }
    }

    /// Projects the rows, forms each head's scaled score matrix, applies
    /// the row-wise softmax per head, drops out the weights, sums the
    /// value slices and projects the concatenated heads. The output has
    /// exactly the input's shape, whatever the row count and embedding
    /// width; parameters and gradient buffers do not change.
    pub fn forward(&mut self, input: &Vec<Vec<S>>, rng: &mut rand::rngs::StdRng) -> (out: Vec<
        Vec<S>,
    >)
        requires
            old(self).wf(),
            grid_wf(input@, old(self).dim()),
        ensures
            final(self).wf(),
            final(self).dim() == old(self).dim(),
            final(self).params() == old(self).params(),
            final(self).grads() == old(self).grads(),
            out@.len() == input@.len(),
            grid_wf(out@, final(self).dim()),
            final(self).primed(),
            final(self).cached_rows() == input@.len(),
    {
        let n = input.len();
        let dim = self.query_matrix.output_size;
        let num_heads = dim / HEAD_DIM;
        proof {
            lemma_fundamental_div_mod(dim as int, HEAD_DIM as int);
            assert(num_heads * HEAD_DIM <= dim);
        }
        let queries = self.query_matrix.forward(input);
        let keys = self.key_matrix.forward(input);
        let values = self.value_matrix.forward(input);
        let scale = S::one().div(S::from_usize(dim).sqrt());

        let mut weights: Vec<Vec<S>> = Vec::new();
        let mut h: usize = 0;
        while h < num_heads
            invariant
                num_heads * HEAD_DIM <= dim,
                num_heads == dim as int / HEAD_DIM as int,
                queries@.len() == n,
                grid_wf(queries@, dim as int),
                keys@.len() == n,
                grid_wf(keys@, dim as int),
                0 <= h <= num_heads,
                weights@.len() == h * n,
                grid_wf(weights@, n as int),
            decreases num_heads - h,
        {
            proof {
                lemma_mul_inequality(h + 1, num_heads as int, HEAD_DIM as int);
            }
            let base = h * HEAD_DIM;
            let mut i: usize = 0;
            while i < n
                invariant
                    base + HEAD_DIM <= dim,
                    queries@.len() == n,
                    grid_wf(queries@, dim as int),
                    keys@.len() == n,
                    grid_wf(keys@, dim as int),
                    0 <= i <= n,
                    weights@.len() == h * n + i,
                    grid_wf(weights@, n as int),
                decreases n - i,
            {
                let mut srow: Vec<S> = Vec::new();
                let mut j: usize = 0;
                while j < n
                    invariant
                        base + HEAD_DIM <= dim,
                        queries@.len() == n,
                        grid_wf(queries@, dim as int),
                        keys@.len() == n,
                        grid_wf(keys@, dim as int),
                        i < n,
                        0 <= j <= n,
                        srow@.len() == j,
                    decreases n - j,
                {
                    let mut acc = S::zero();
                    let mut t: usize = 0;
                    while t < HEAD_DIM
                        invariant
                            base + HEAD_DIM <= dim,
                            queries@.len() == n,
                            grid_wf(queries@, dim as int),
                            keys@.len() == n,
                            grid_wf(keys@, dim as int),
                            i < n,
                            j < n,
                            0 <= t <= HEAD_DIM,
                        decreases HEAD_DIM - t,
                    {
                        acc = acc.add(queries[i][base + t].mul(keys[j][base + t]));
                        t = t + 1;
                    }
                    srow.push(acc.mul(scale));
                    j = j + 1;
                }
                let wrow = softmax(&srow);
                weights.push(wrow);
                i = i + 1;
            }
            proof {
                assert((h + 1) * n == h * n + n) by (nonlinear_arith);
            }
            h = h + 1;
        }

        let dropped = self.dropout.forward(&weights, rng);
        let hn = weights.len();

        let mut wv = zeros_grid::<S>(n, dim);
        let mut h2: usize = 0;
        while h2 < num_heads
            invariant
                num_heads * HEAD_DIM <= dim,
                hn == num_heads * n,
                values@.len() == n,
                grid_wf(values@, dim as int),
                dropped@.len() == hn,
                grid_wf(dropped@, n as int),
                0 <= h2 <= num_heads,
                wv@.len() == n,
                grid_wf(wv@, dim as int),
            decreases num_heads - h2,
        {
            proof {
                lemma_mul_inequality(h2 + 1, num_heads as int, HEAD_DIM as int);
                lemma_mul_inequality(h2 + 1, num_heads as int, n as int);
                assert((h2 + 1) * HEAD_DIM == h2 * HEAD_DIM + HEAD_DIM) by (nonlinear_arith);
                assert((h2 + 1) * n == h2 * n + n) by (nonlinear_arith);
            }
            let base = h2 * HEAD_DIM;
            let hbase = h2 * n;
            let mut i: usize = 0;
            while i < n
                invariant
                    base + HEAD_DIM <= dim,
                    hbase + n <= hn,
                    values@.len() == n,
                    grid_wf(values@, dim as int),
                    dropped@.len() == hn,
                    grid_wf(dropped@, n as int),
                    0 <= i <= n,
                    wv@.len() == n,
                    grid_wf(wv@, dim as int),
                decreases n - i,
            {
                let mut j: usize = 0;
                while j < n
                    invariant
                        base + HEAD_DIM <= dim,
                        hbase + n <= hn,
                        values@.len() == n,
                        grid_wf(values@, dim as int),
                        dropped@.len() == hn,
                        grid_wf(dropped@, n as int),
                        i < n,
                        0 <= j <= n,
                        wv@.len() == n,
                        grid_wf(wv@, dim as int),
                    decreases n - j,
                {
                    let w = dropped[hbase + i][j];
                    let mut t: usize = 0;
                    while t < HEAD_DIM
                        invariant
                            base + HEAD_DIM <= dim,
                            values@.len() == n,
                            grid_wf(values@, dim as int),
                            i < n,
                            j < n,
                            0 <= t <= HEAD_DIM,
                            wv@.len() == n,
                            grid_wf(wv@, dim as int),
                        decreases HEAD_DIM - t,
                    {
                        let updated = wv[i][base + t].add(values[j][base + t].mul(w));
                        wv[i][base + t] = updated;
                        proof {
                            assert(grid_wf(wv@, dim as int));
                        }
                        t = t + 1;
                    }
                    j = j + 1;
                }
                i = i + 1;
            }
            h2 = h2 + 1;
        }

        let out = self.output_matrix.forward(&wv);
        self.weights = weights;
        self.primed = true;
        out
    }

    /// Consumes the caches and mirrors the forward pass: output-transform
    /// backward, split per head, value gradients masked by the dropout
    /// mask, weight gradients from the value dot products, dropout
    /// backward, the softmax Jacobian `s * (g - sum(s * g))` over the
    /// cached weights, the same scale, and the query/key gradient
    /// accumulation. The returned gradient is the query branch's, with
    /// exactly the shape of `grad_output`; parameters do not change.
    pub fn backward(&mut self, grad_output: &Vec<Vec<S>>) -> (grad_input: Vec<Vec<S>>)
        requires
            old(self).wf(),
            old(self).primed(),
            grad_output@.len() == old(self).cached_rows(),
            grid_wf(grad_output@, old(self).dim()),
        ensures
            final(self).wf(),
            final(self).dim() == old(self).dim(),
            final(self).params() == old(self).params(),
            grad_input@.len() == grad_output@.len(),
            grid_wf(grad_input@, final(self).dim()),
            !final(self).primed,
    {
        let n = grad_output.len();
        let dim = self.query_matrix.output_size;
        let num_heads = dim / HEAD_DIM;
        proof {
            lemma_fundamental_div_mod(dim as int, HEAD_DIM as int);
            assert(num_heads * HEAD_DIM <= dim);
        }
        let hn = self.weights.len();
        let scale = S::one().div(S::from_usize(dim).sqrt());

        let grad_concat = self.output_matrix.backward(grad_output);

        let mut grad_values = zeros_grid::<S>(n, dim);
        let mut grad_dw = zeros_grid::<S>(hn, n);
        let mut h: usize = 0;
        while h < num_heads
            invariant
                self.wf(),
                self.value_matrix.primed,
                self.value_matrix.cached_rows() == n,
                num_heads * HEAD_DIM <= dim,
                dim == self.dim(),
                hn == num_heads * n,
                self.dropout.mask@.len() == hn,
                forall|x: int| 0 <= x < hn ==> (#[trigger] self.dropout.mask@[x])@.len() == n,
                grad_concat@.len() == n,
                grid_wf(grad_concat@, dim as int),
                0 <= h <= num_heads,
                grad_values@.len() == n,
                grid_wf(grad_values@, dim as int),
                grad_dw@.len() == hn,
                grid_wf(grad_dw@, n as int),
            decreases num_heads - h,
        {
            proof {
                lemma_mul_inequality(h + 1, num_heads as int, HEAD_DIM as int);
                lemma_mul_inequality(h + 1, num_heads as int, n as int);
                assert((h + 1) * HEAD_DIM == h * HEAD_DIM + HEAD_DIM) by (nonlinear_arith);
                assert((h + 1) * n == h * n + n) by (nonlinear_arith);
            }
            let base = h * HEAD_DIM;
            let hbase = h * n;
            let mut i: usize = 0;
            while i < n
                invariant
                    self.wf(),
                    self.value_matrix.primed,
                    self.value_matrix.cached_rows() == n,
                    base + HEAD_DIM <= dim,
                    hbase + n <= hn,
                    dim == self.dim(),
                    self.dropout.mask@.len() == hn,
                    forall|x: int| 0 <= x < hn ==> (#[trigger] self.dropout.mask@[x])@.len() == n,
                    grad_concat@.len() == n,
                    grid_wf(grad_concat@, dim as int),
                    0 <= i <= n,
                    grad_values@.len() == n,
                    grid_wf(grad_values@, dim as int),
                    grad_dw@.len() == hn,
                    grid_wf(grad_dw@, n as int),
                decreases n - i,
            {
                let mut j: usize = 0;
                while j < n
                    invariant
                        self.wf(),
                        self.value_matrix.primed,
                        self.value_matrix.cached_rows() == n,
                        base + HEAD_DIM <= dim,
                        hbase + n <= hn,
                        dim == self.dim(),
                        self.dropout.mask@.len() == hn,
                        forall|x: int| 0 <= x < hn ==> (#[trigger] self.dropout.mask@[x])@.len()
                            == n,
                        grad_concat@.len() == n,
                        grid_wf(grad_concat@, dim as int),
                        i < n,
                        0 <= j <= n,
                        grad_values@.len() == n,
                        grid_wf(grad_values@, dim as int),
                        grad_dw@.len() == hn,
                        grid_wf(grad_dw@, n as int),
                    decreases n - j,
                {
                    let kept = !self.dropout.mask[hbase + i][j];
                    let mut dot = S::zero();
                    let mut t: usize = 0;
                    while t < HEAD_DIM
                        invariant
                            self.wf(),
                            self.value_matrix.primed,
                            self.value_matrix.cached_rows() == n,
                            base + HEAD_DIM <= dim,
                            dim == self.dim(),
                            grad_concat@.len() == n,
                            grid_wf(grad_concat@, dim as int),
                            i < n,
                            j < n,
                            0 <= t <= HEAD_DIM,
                            grad_values@.len() == n,
                            grid_wf(grad_values@, dim as int),
                        decreases HEAD_DIM - t,
                    {
                        let g = grad_concat[i][base + t];
                        if kept {
                            let updated = grad_values[j][base + t].add(g);
                            grad_values[j][base + t] = updated;
                            proof {
                                assert(grid_wf(grad_values@, dim as int));
                            }
                        }
                        dot = dot.add(g.mul(self.value_matrix.output[j][base + t]));
                        t = t + 1;
                    }
                    let updated_dw = grad_dw[hbase + i][j].add(dot);
                    grad_dw[hbase + i][j] = updated_dw;
                    proof {
                        assert(grid_wf(grad_dw@, n as int));
                    }
                    j = j + 1;
                }
                i = i + 1;
            }
            h = h + 1;
        }

        let grad_weights = self.dropout.backward(&grad_dw);

        // Softmax Jacobian per cached weight row, with the scale folded in.
        let mut grad_scores: Vec<Vec<S>> = Vec::new();
        let mut r: usize = 0;
        while r < hn
            invariant
                self.weights@.len() == hn,
                grid_wf(self.weights@, n as int),
                grad_weights@.len() == hn,
                forall|x: int| 0 <= x < hn ==> (#[trigger] grad_weights@[x])@.len() == n,
                0 <= r <= hn,
                grad_scores@.len() == r,
                grid_wf(grad_scores@, n as int),
            decreases hn - r,
        {
            let srow = &self.weights[r];
            let grow = &grad_weights[r];
            let mut dot = S::zero();
            let mut j: usize = 0;
            while j < n
                invariant
                    srow@.len() == n,
                    grow@.len() == n,
                    0 <= j <= n,
                decreases n - j,
            {
                dot = dot.add(srow[j].mul(grow[j]));
                j = j + 1;
            }
            let mut orow: Vec<S> = Vec::new();
            j = 0;
            while j < n
                invariant
                    srow@.len() == n,
                    grow@.len() == n,
                    0 <= j <= n,
                    orow@.len() == j,
                decreases n - j,
            {
                orow.push(srow[j].mul(grow[j].sub(dot)).mul(scale));
                j = j + 1;
            }
            grad_scores.push(orow);
            r = r + 1;
        }

        let mut grad_queries = zeros_grid::<S>(n, dim);
        let mut grad_keys = zeros_grid::<S>(n, dim);
        let mut h3: usize = 0;
        while h3 < num_heads
            invariant
                self.wf(),
                self.query_matrix.primed,
                self.key_matrix.primed,
                self.query_matrix.cached_rows() == n,
                self.key_matrix.cached_rows() == n,
                num_heads * HEAD_DIM <= dim,
                dim == self.dim(),
                hn == num_heads * n,
                grad_scores@.len() == hn,
                grid_wf(grad_scores@, n as int),
                0 <= h3 <= num_heads,
                grad_queries@.len() == n,
                grid_wf(grad_queries@, dim as int),
                grad_keys@.len() == n,
                grid_wf(grad_keys@, dim as int),
            decreases num_heads - h3,
        {
            proof {
                lemma_mul_inequality(h3 + 1, num_heads as int, HEAD_DIM as int);
                lemma_mul_inequality(h3 + 1, num_heads as int, n as int);
                assert((h3 + 1) * HEAD_DIM == h3 * HEAD_DIM + HEAD_DIM) by (nonlinear_arith);
                assert((h3 + 1) * n == h3 * n + n) by (nonlinear_arith);
            }
            let base = h3 * HEAD_DIM;
            let hbase = h3 * n;
            let mut i: usize = 0;
            while i < n
                invariant
                    self.wf(),
                    self.query_matrix.primed,
                    self.key_matrix.primed,
                    self.query_matrix.cached_rows() == n,
                    self.key_matrix.cached_rows() == n,
                    base + HEAD_DIM <= dim,
                    hbase + n <= hn,
                    dim == self.dim(),
                    grad_scores@.len() == hn,
                    grid_wf(grad_scores@, n as int),
                    0 <= i <= n,
                    grad_queries@.len() == n,
                    grid_wf(grad_queries@, dim as int),
                    grad_keys@.len() == n,
                    grid_wf(grad_keys@, dim as int),
                decreases n - i,
            {
                let mut j: usize = 0;
                while j < n
                    invariant
                        self.wf(),
                        self.query_matrix.primed,
                        self.key_matrix.primed,
                        self.query_matrix.cached_rows() == n,
                        self.key_matrix.cached_rows() == n,
                        base + HEAD_DIM <= dim,
                        hbase + n <= hn,
                        dim == self.dim(),
                        grad_scores@.len() == hn,
                        grid_wf(grad_scores@, n as int),
                        i < n,
                        0 <= j <= n,
                        grad_queries@.len() == n,
                        grid_wf(grad_queries@, dim as int),
                        grad_keys@.len() == n,
                        grid_wf(grad_keys@, dim as int),
                    decreases n - j,
                {
                    let gs = grad_scores[hbase + i][j];
                    let mut t: usize = 0;
                    while t < HEAD_DIM
                        invariant
                            self.wf(),
                            self.query_matrix.primed,
                            self.key_matrix.primed,
                            self.query_matrix.cached_rows() == n,
                            self.key_matrix.cached_rows() == n,
                            base + HEAD_DIM <= dim,
                            dim == self.dim(),
                            i < n,
                            j < n,
                            0 <= t <= HEAD_DIM,
                            grad_queries@.len() == n,
                            grid_wf(grad_queries@, dim as int),
                            grad_keys@.len() == n,
                            grid_wf(grad_keys@, dim as int),
                        decreases HEAD_DIM - t,
                    {
                        let gq = grad_queries[i][base + t].add(
                            gs.mul(self.key_matrix.output[j][base + t]),
                        );
                        grad_queries[i][base + t] = gq;
                        let gk = grad_keys[j][base + t].add(
                            gs.mul(self.query_matrix.output[i][base + t]),
                        );
                        grad_keys[j][base + t] = gk;
                        proof {
                            assert(grid_wf(grad_queries@, dim as int));
                            assert(grid_wf(grad_keys@, dim as int));
                        }
                        t = t + 1;
                    }
                    j = j + 1;
                }
                i = i + 1;
            }
            h3 = h3 + 1;
        }

        let grad_input = self.query_matrix.backward(&grad_queries);
        self.key_matrix.backward(&grad_keys);
        self.value_matrix.backward(&grad_values);
        self.primed = false;
        grad_input
    }

    /// The gradient buffers mirror the parameter buffers exactly.
    pub proof fn lemma_aligned(&self)
        requires
            self.wf(),
        ensures
            buffers_aligned(self.params(), self.grads()),
    {
        self.query_matrix.lemma_aligned();
        self.key_matrix.lemma_aligned();
        self.value_matrix.lemma_aligned();
        self.output_matrix.lemma_aligned();
        lemma_aligned_concat(
            self.query_matrix.params(),
            self.query_matrix.grads(),
            self.key_matrix.params(),
            self.key_matrix.grads(),
        );
        lemma_aligned_concat(
            self.query_matrix.params() + self.key_matrix.params(),
            self.query_matrix.grads() + self.key_matrix.grads(),
            self.value_matrix.params(),
            self.value_matrix.grads(),
        );
        lemma_aligned_concat(
            self.query_matrix.params() + self.key_matrix.params() + self.value_matrix.params(),
            self.query_matrix.grads() + self.key_matrix.grads() + self.value_matrix.grads(),
            self.output_matrix.params(),
            self.output_matrix.grads(),
        );
    }

    /// Appends copies of the parameter buffers, in traversal order.
    pub fn append_params(&self, out: &mut Vec<Vec<S>>)
        requires
            self.wf(),
        ensures
            final(out)@.len() == old(out)@.len() + self.params().len(),
            views(final(out)@) == views(old(out)@) + self.params(),
    {
        let ghost orig = out@;
        self.query_matrix.append_params(out);
        self.key_matrix.append_params(out);
        self.value_matrix.append_params(out);
        self.output_matrix.append_params(out);
        proof {
            assert(views(out@) =~= views(orig) + self.params());
        }
    }

    /// Appends copies of the gradient buffers, in the same order.
    pub fn append_grads(&self, out: &mut Vec<Vec<S>>)
        requires
            self.wf(),
        ensures
            final(out)@.len() == old(out)@.len() + self.grads().len(),
            views(final(out)@) == views(old(out)@) + self.grads(),
    {
        let ghost orig = out@;
        self.query_matrix.append_grads(out);
        self.key_matrix.append_grads(out);
        self.value_matrix.append_grads(out);
        self.output_matrix.append_grads(out);
        proof {
            assert(views(out@) =~= views(orig) + self.grads());
        }
    }

    /// Replaces the parameter buffers with the slice of `src` that starts
    /// at `start`, leaving the gradient buffers untouched, and returns
    /// the position right after the slice.
    pub fn load_params(&mut self, src: &Vec<Vec<S>>, start: usize) -> (next: usize)
        requires
            old(self).wf(),
            start + old(self).params().len() <= src@.len(),
            forall|k: int| 0 <= k < old(self).params().len() ==> (#[trigger] src@[start + k])@.len()
                == old(self).params()[k].len(),
        ensures
            final(self).wf(),
            final(self).dim() == old(self).dim(),
            final(self).grads() == old(self).grads(),
            next == start + old(self).params().len(),
            final(self).params() == views(src@).subrange(start as int, next as int),
    {
        let ghost qp = old(self).query_matrix.params();
        let ghost kp = old(self).key_matrix.params();
        let ghost vp = old(self).value_matrix.params();
        let ghost op = old(self).output_matrix.params();
        proof {
            assert forall|k: int| 0 <= k < qp.len() implies (#[trigger] src@[start + k])@.len()
                == qp[k].len() by {
                assert(old(self).params()[k] == qp[k]);
            }
        }
        let n1 = self.query_matrix.load_params(src, start);
        proof {
            assert forall|k: int| 0 <= k < kp.len() implies (#[trigger] src@[n1 + k])@.len()
                == kp[k].len() by {
                assert(old(self).params()[qp.len() + k] == kp[k]);
                assert(src@[start + (qp.len() + k)]@.len() == old(self).params()[qp.len()
                    + k].len());
                assert(src@[n1 + k] == src@[start + (qp.len() + k)]);
            }
        }
        let n2 = self.key_matrix.load_params(src, n1);
        proof {
            assert forall|k: int| 0 <= k < vp.len() implies (#[trigger] src@[n2 + k])@.len()
                == vp[k].len() by {
                assert(old(self).params()[qp.len() + kp.len() + k] == vp[k]);
                assert(src@[start + (qp.len() + kp.len() + k)]@.len() == old(self).params()[
                    qp.len() + kp.len() + k
                ].len());
                assert(src@[n2 + k] == src@[start + (qp.len() + kp.len() + k)]);
            }
        }
        let n3 = self.value_matrix.load_params(src, n2);
        proof {
            assert forall|k: int| 0 <= k < op.len() implies (#[trigger] src@[n3 + k])@.len()
                == op[k].len() by {
                assert(old(self).params()[qp.len() + kp.len() + vp.len() + k] == op[k]);
                assert(src@[start + (qp.len() + kp.len() + vp.len() + k)]@.len() == old(
                    self,
                ).params()[qp.len() + kp.len() + vp.len() + k].len());
                assert(src@[n3 + k] == src@[start + (qp.len() + kp.len() + vp.len() + k)]);
            }
        }
        let n4 = self.output_matrix.load_params(src, n3);
        proof {
            assert(self.params() =~= views(src@).subrange(start as int, n4 as int));
        }
        n4
    }
}

} // verus!
