use vstd::prelude::*;
use crate::config::Config;
use crate::data_loader::DataLoader;
use crate::data_loader::DataLoaderIter;
use crate::embedding::Embedding;
use crate::layer_norm::LayerNorm;
use crate::linear::Linear;
use crate::optimizer::AdamOptimizer;
use crate::positional_encoding::PositionalEncoding;
use crate::scalar::Scalar;
use crate::tensor::add_grids;
use crate::tensor::buffers_aligned;
use crate::tensor::copy_row;
use crate::tensor::grid_wf;
use crate::tensor::lemma_aligned_concat;
use crate::tensor::views;
use crate::tensor::softmax;
use crate::tokenizer::Tokenizer;
use crate::transformer::Transformer;

verus! {

/// Every id of the row is a valid token id.
pub open spec fn row_ids_ok(ids: Seq<usize>, vocab: int) -> bool {
    forall|k: int| 0 <= k < ids.len() ==> #[trigger] ids[k] < vocab
}

/// Every id of every sequence of the batch is a valid token id.
pub open spec fn batch_ids_ok(batch: Seq<Vec<usize>>, vocab: int) -> bool {
    forall|b: int| 0 <= b < batch.len() ==> row_ids_ok((#[trigger] batch[b])@, vocab)
}

/// The batch's sequences, concatenated in order.
pub open spec fn flat_ids(batch: Seq<Vec<usize>>) -> Seq<usize>
    decreases batch.len(),
{
    if batch.len() == 0 {
        Seq::empty()
    } else {
        flat_ids(batch.drop_last()) + batch.last()@
    }
}

/// Two batches with the same sequence count and lengths.
pub open spec fn same_shape(a: Seq<Vec<usize>>, b: Seq<Vec<usize>>) -> bool {
    &&& a.len() == b.len()
    &&& forall|x: int| 0 <= x < a.len() ==> (#[trigger] a[x])@.len() == b[x]@.len()
}

/// One row matrix per sequence of the batch, one `cols`-wide row per
/// position of that sequence.
pub open spec fn cube_shape<S>(cube: Seq<Vec<Vec<S>>>, batch: Seq<Vec<usize>>, cols: int) -> bool {
    &&& cube.len() == batch.len()
    &&& forall|b: int| 0 <= b < cube.len() ==> (#[trigger] cube[b])@.len() == batch[b]@.len()
        && grid_wf(cube[b]@, cols)
}

/// The cube's row matrices, concatenated in order.
pub open spec fn flat_grids<S>(cube: Seq<Vec<Vec<S>>>) -> Seq<Vec<S>>
    decreases cube.len(),
{
    if cube.len() == 0 {
        Seq::empty()
    } else {
        flat_grids(cube.drop_last()) + cube.last()@
    }
}

/// Where sequence `b` of the batch starts within the flat stack.
pub open spec fn row_offset(batch: Seq<Vec<usize>>, b: int) -> int {
    flat_ids(batch.take(b)).len() as int
}

/// The cube holds exactly the flat stack's rows, cut at the batch's
/// sequence boundaries: row `t` of sequence `b` is flat row
/// `row_offset(batch, b) + t`.
pub open spec fn cut_matches<S>(
    cube: Seq<Vec<Vec<S>>>,
    rows: Seq<Vec<S>>,
    batch: Seq<Vec<usize>>,
) -> bool {
    forall|b: int, t: int|
        0 <= b < cube.len() && 0 <= t < cube[b]@.len() ==> (#[trigger] cube[b]@[t])@ == rows[
            row_offset(batch, b) + t
        ]@
}

pub proof fn lemma_flat_ids_ok(batch: Seq<Vec<usize>>, vocab: int)
    requires
        batch_ids_ok(batch, vocab),
    ensures
        row_ids_ok(flat_ids(batch), vocab),
    decreases batch.len(),
{
    if batch.len() > 0 {
        assert(forall|x: int| 0 <= x < batch.len() - 1 ==> #[trigger] batch.drop_last()[x]
            == batch[x]);
        lemma_flat_ids_ok(batch.drop_last(), vocab);
        assert(batch.last() == batch[batch.len() - 1]);
        assert(row_ids_ok(batch.last()@, vocab));
    }
}

pub proof fn lemma_flat_len_same_shape(a: Seq<Vec<usize>>, b: Seq<Vec<usize>>)
    requires
        same_shape(a, b),
    ensures
        flat_ids(a).len() == flat_ids(b).len(),
    decreases a.len(),
{
    if a.len() > 0 {
        assert(forall|x: int| 0 <= x < a.len() - 1 ==> #[trigger] a.drop_last()[x] == a[x]
            && b.drop_last()[x] == b[x]);
        lemma_flat_len_same_shape(a.drop_last(), b.drop_last());
        assert(a.last()@.len() == b.last()@.len());
    }
}

pub proof fn lemma_cube_flat_len<S>(cube: Seq<Vec<Vec<S>>>, batch: Seq<Vec<usize>>, cols: int)
    requires
        cube_shape(cube, batch, cols),
    ensures
        flat_grids(cube).len() == flat_ids(batch).len(),
        grid_wf(flat_grids(cube), cols),
    decreases cube.len(),
{
    if cube.len() > 0 {
        assert(forall|x: int| 0 <= x < cube.len() - 1 ==> #[trigger] cube.drop_last()[x]
            == cube[x] && batch.drop_last()[x] == batch[x]);
        lemma_cube_flat_len(cube.drop_last(), batch.drop_last(), cols);
        assert(cube.last() == cube[cube.len() - 1]);
        assert(grid_wf(cube.last()@, cols));
        assert forall|i: int| 0 <= i < flat_grids(cube).len() implies (#[trigger] flat_grids(
            cube,
        )[i])@.len() == cols by {
            let fl = flat_grids(cube.drop_last());
            if i < fl.len() {
                assert(flat_grids(cube)[i] == fl[i]);
            } else {
                assert(flat_grids(cube)[i] == cube.last()@[i - fl.len()]);
            }
        }
    }
}

/// The batch's sequences concatenated into one flat id buffer.
pub fn flatten_ids(batch: &Vec<Vec<usize>>) -> (r: Vec<usize>)
    ensures
        r@ == flat_ids(batch@),
{
    let mut r: Vec<usize> = Vec::new();
    let mut b: usize = 0;
    while b < batch.len()
        invariant
            0 <= b <= batch@.len(),
            r@ == flat_ids(batch@.take(b as int)),
        decreases batch@.len() - b,
    {
        let row = &batch[b];
        let mut t: usize = 0;
        while t < row.len()
            invariant
                b < batch@.len(),
                row == batch@[b as int],
                0 <= t <= row@.len(),
                r@ == flat_ids(batch@.take(b as int)) + row@.subrange(0, t as int),
            decreases row@.len() - t,
        {
            r.push(row[t]);
            proof {
                assert(r@ =~= flat_ids(batch@.take(b as int)) + row@.subrange(0, t + 1));
            }
            t = t + 1;
        }
        proof {
            assert(batch@.take(b + 1int).drop_last() =~= batch@.take(b as int));
            assert(batch@.take(b + 1int).last() == batch@[b as int]);
            assert(row@.subrange(0, row@.len() as int) =~= row@);
            assert(r@ =~= flat_ids(batch@.take(b + 1int)));
        }
        b = b + 1;
    }
    proof {
        assert(batch@.take(batch@.len() as int) =~= batch@);
    }
    r
}

/// Within the flat form, sequence `x` ends no later than where any later
/// prefix ends.
proof fn lemma_cube_prefix_bound<S>(cube: Seq<Vec<Vec<S>>>, x: int, b: int)
    requires
        0 <= x < b <= cube.len(),
    ensures
        flat_grids(cube.take(x)).len() + cube[x]@.len() <= flat_grids(cube.take(b)).len(),
    decreases b - x,
{
    assert(cube.take(x + 1).drop_last() =~= cube.take(x));
    assert(cube.take(x + 1).last() == cube[x]);
    assert(flat_grids(cube.take(x + 1)) == flat_grids(cube.take(x)) + cube[x]@);
    if x + 1 < b {
        lemma_cube_prefix_bound(cube, x + 1, b);
    }
}

/// The cube's row matrices concatenated into one flat stack of rows.
fn flatten_cube<S: Scalar>(cube: &Vec<Vec<Vec<S>>>, cols: usize) -> (r: Vec<Vec<S>>)
    requires
        forall|b: int| 0 <= b < cube@.len() ==> grid_wf((#[trigger] cube@[b])@, cols as int),
    ensures
        r@.len() == flat_grids(cube@).len(),
        grid_wf(r@, cols as int),
        forall|b: int, t: int|
            0 <= b < cube@.len() && 0 <= t < cube@[b]@.len() ==> (#[trigger] cube@[b]@[t])@ == r@[
                flat_grids(cube@.take(b)).len() + t
            ]@,
{
    let mut r: Vec<Vec<S>> = Vec::new();
    let mut b: usize = 0;
    while b < cube.len()
        invariant
            forall|x: int| 0 <= x < cube@.len() ==> grid_wf((#[trigger] cube@[x])@, cols as int),
            0 <= b <= cube@.len(),
            r@.len() == flat_grids(cube@.take(b as int)).len(),
            grid_wf(r@, cols as int),
            forall|x: int, y: int|
                0 <= x < b && 0 <= y < cube@[x]@.len() ==> (#[trigger] cube@[x]@[y])@ == r@[
                    flat_grids(cube@.take(x)).len() + y
                ]@,
        decreases cube@.len() - b,
    {
        let ghost base = r@.len() as int;
        let grid = &cube[b];
        let mut t: usize = 0;
        while t < grid.len()
            invariant
                b < cube@.len(),
                grid == cube@[b as int],
                grid_wf(grid@, cols as int),
                base == flat_grids(cube@.take(b as int)).len(),
                0 <= t <= grid@.len(),
                r@.len() == base + t,
                grid_wf(r@, cols as int),
                forall|x: int, y: int|
                    0 <= x < b && 0 <= y < cube@[x]@.len() ==> (#[trigger] cube@[x]@[y])@ == r@[
                        flat_grids(cube@.take(x)).len() + y
                    ]@,
                forall|y: int| 0 <= y < t ==> (#[trigger] grid@[y])@ == r@[base + y]@,
            decreases grid@.len() - t,
        {
            r.push(copy_row(&grid[t]));
            proof {
                assert forall|x: int, y: int|
                    0 <= x < b && 0 <= y < cube@[x]@.len() implies (#[trigger] cube@[x]@[y])@
                    == r@[flat_grids(cube@.take(x)).len() + y]@ by {
                    lemma_cube_prefix_bound(cube@, x, b as int);
                }
            }
            t = t + 1;
        }
        proof {
            assert(cube@.take(b + 1int).drop_last() =~= cube@.take(b as int));
            assert(cube@.take(b + 1int).last() == cube@[b as int]);
        }
        b = b + 1;
    }
    proof {
        assert(cube@.take(cube@.len() as int) =~= cube@);
    }
    r
}

/// The flat stack of rows cut back into one row matrix per sequence of
/// the batch.
fn split_rows<S: Scalar>(rows: &Vec<Vec<S>>, batch: &Vec<Vec<usize>>, cols: usize) -> (cube: Vec<
    Vec<Vec<S>>,
>)
    requires
        rows@.len() == flat_ids(batch@).len(),
        grid_wf(rows@, cols as int),
    ensures
        cube_shape(cube@, batch@, cols as int),
        cut_matches(cube@, rows@, batch@),
{
    let mut cube: Vec<Vec<Vec<S>>> = Vec::new();
    let nrows = rows.len();
    let mut off: usize = 0;
    let mut b: usize = 0;
    while b < batch.len()
        invariant
            nrows == rows@.len(),
            rows@.len() == flat_ids(batch@).len(),
            grid_wf(rows@, cols as int),
            0 <= b <= batch@.len(),
            off == flat_ids(batch@.take(b as int)).len(),
            cube_shape(cube@, batch@.take(b as int), cols as int),
            cube@.len() == b,
            forall|x: int, t: int|
                0 <= x < b && 0 <= t < cube@[x]@.len() ==> (#[trigger] cube@[x]@[t])@ == rows@[
                    row_offset(batch@, x) + t
                ]@,
        decreases batch@.len() - b,
    {
        let row_count = batch[b].len();
        proof {
            assert(batch@.take(b + 1int).drop_last() =~= batch@.take(b as int));
            assert(batch@.take(b + 1int).last() == batch@[b as int]);
            assert(flat_ids(batch@.take(b + 1int)).len() == off + row_count);
            lemma_flat_prefix_le(batch@, b + 1int);
            assert(off + row_count <= rows@.len());
        }
        let mut grid: Vec<Vec<S>> = Vec::new();
        let mut t: usize = 0;
        while t < row_count
            invariant
                nrows == rows@.len(),
                rows@.len() == flat_ids(batch@).len(),
                grid_wf(rows@, cols as int),
                b < batch@.len(),
                row_count == batch@[b as int]@.len(),
                off + row_count <= rows@.len(),
                0 <= t <= row_count,
                grid@.len() == t,
                grid_wf(grid@, cols as int),
                forall|y: int| 0 <= y < t ==> (#[trigger] grid@[y])@ == rows@[off + y]@,
            decreases row_count - t,
        {
            grid.push(copy_row(&rows[off + t]));
            t = t + 1;
        }
        cube.push(grid);
        proof {
            assert(cube_shape(cube@, batch@.take(b + 1int), cols as int));
            assert(off == row_offset(batch@, b as int));
            assert forall|y: int| 0 <= y < cube@[b as int]@.len() implies (#[trigger] cube@[
                b as int
            ]@[y])@ == rows@[row_offset(batch@, b as int) + y]@ by {
                assert(cube@[b as int]@[y] == grid@[y]);
                assert(grid@[y]@ == rows@[off + y]@);
            }
        }
        off = off + row_count;
        b = b + 1;
    }
    proof {
        assert(batch@.take(batch@.len() as int) =~= batch@);
    }
    cube
}

/// A prefix of the batch never holds more ids than the whole batch.
proof fn lemma_flat_prefix_le(batch: Seq<Vec<usize>>, b: int)
    requires
        0 <= b <= batch.len(),
    ensures
        flat_ids(batch.take(b)).len() <= flat_ids(batch).len(),
    decreases batch.len() - b,
{
    if b == batch.len() {
        assert(batch.take(b) =~= batch);
    } else {
        assert(batch.take(b + 1).drop_last() =~= batch.take(b));
        assert(flat_ids(batch.take(b + 1)) == flat_ids(batch.take(b)) + batch.take(b + 1).last()@);
        lemma_flat_prefix_le(batch, b + 1);
    }
}

/// The whole model: embedding plus positional encoding, the transformer
/// stack, a final normalization, and the output projection to vocabulary
/// width, with the cross-entropy loss and the sampling loop beside them.
///
/// A batch is handled as the concatenation of its sequences: the layers
/// run once over all the rows, and the logits are cut back per sequence,
/// so one forward call leaves one consistent set of caches for the one
/// following backward call.
pub struct Model<S> {
    pub embedding: Embedding<S>,
    pub positional_encoding: PositionalEncoding<S>,
    pub transformer: Transformer<S>,
    pub layer_norm: LayerNorm<S>,
    pub linear: Linear<S>,
}

impl<S: Scalar> Model<S> {
    pub open spec fn vocab_size(&self) -> int {
        self.embedding.vocab_size as int
    }

    pub open spec fn embedding_dim(&self) -> int {
        self.embedding.embedding_dim as int
    }

    pub open spec fn max_seq_len(&self) -> int {
        self.positional_encoding.max_seq_len as int
    }

    pub open spec fn wf(&self) -> bool {
        &&& 1 <= self.vocab_size()
        &&& self.embedding.wf()
        &&& self.positional_encoding.wf()
        &&& self.positional_encoding.embedding_dim == self.embedding_dim()
        &&& self.transformer.wf()
        &&& self.transformer.embedding_dim == self.embedding_dim()
        &&& self.layer_norm.wf()
        &&& self.layer_norm.dim == self.embedding_dim()
        &&& self.linear.wf()
        &&& self.linear.input_size == self.embedding_dim()
        &&& self.linear.output_size == self.vocab_size()
    }

    /// Rows cached for the pending backward call.
    pub open spec fn cached_rows(&self) -> int {
        self.transformer.cached_rows()
    }

    /// Caches are filled, mutually consistent, and not yet consumed.
    pub open spec fn primed(&self) -> bool {
        &&& self.transformer.primed()
        &&& self.linear.primed
        &&& self.linear.cached_rows() == self.cached_rows()
    }

    /// The parameter buffers of the whole model, in its fixed traversal
    /// order: embedding table, transformer stack, final normalization,
    /// output projection.
    pub open spec fn params(&self) -> Seq<Seq<S>> {
        self.embedding.params() + self.transformer.params() + self.layer_norm.params()
            + self.linear.params()
    }

    /// The gradient buffers, in the same order as `params`.
    pub open spec fn grads(&self) -> Seq<Seq<S>> {
        self.embedding.grads() + self.transformer.grads() + self.layer_norm.grads()
            + self.linear.grads()
    }

    pub fn new(config: &Config, rng: &mut rand::rngs::StdRng) -> (r: Model<S>)
        requires
            config.wf(),
        ensures
            r.wf(),
            r.vocab_size() == config.vocab_size,
            r.embedding_dim() == config.embedding_dim,
            r.max_seq_len() == config.max_seq_len,
    {
        Model {
            embedding: Embedding::new(config.vocab_size, config.embedding_dim, rng),
            positional_encoding: PositionalEncoding::new(config.max_seq_len, config.embedding_dim),
            transformer: Transformer::new(config, rng),
            layer_norm: LayerNorm::new(config.embedding_dim),
            linear: Linear::new(config.embedding_dim, config.vocab_size, rng),
        }
    }

    /// One pass over a flat id sequence: embedding plus positional
    /// encoding, the transformer stack, the final normalization and the
    /// output projection. One `vocab_size`-wide logit row per id.
    fn forward_rows(&mut self, ids: &Vec<usize>, rng: &mut rand::rngs::StdRng) -> (rows: Vec<
        Vec<S>,
    >)
        requires
            old(self).wf(),
            row_ids_ok(ids@, old(self).vocab_size()),
            ids@.len() <= old(self).max_seq_len(),
        ensures
            final(self).wf(),
            final(self).vocab_size() == old(self).vocab_size(),
            final(self).embedding_dim() == old(self).embedding_dim(),
            final(self).max_seq_len() == old(self).max_seq_len(),
            final(self).params() == old(self).params(),
            final(self).grads() == old(self).grads(),
            rows@.len() == ids@.len(),
            grid_wf(rows@, final(self).vocab_size()),
            final(self).primed(),
            final(self).cached_rows() == ids@.len(),
    {
        let dim = self.embedding.embedding_dim;
        let embeddings = self.embedding.forward(ids);
        let positions = self.positional_encoding.forward(ids.len());
        let summed = add_grids(&embeddings, &positions, dim);
        let transformed = self.transformer.forward(&summed, rng);
        let normed = self.layer_norm.forward(&transformed);
        self.linear.forward(&normed)
    }

    /// The batched forward pass: the batch's sequences are concatenated,
    /// run through the layers once, and the logits are cut back into one
    /// matrix per sequence, shaped exactly like the input with
    /// `vocab_size`-wide rows. With targets, the mean cross-entropy loss
    /// over all positions is returned beside the logits; without, no
    /// loss.
    pub fn forward(
        &mut self,
        input: &Vec<Vec<usize>>,
        target: Option<&Vec<Vec<usize>>>,
        rng: &mut rand::rngs::StdRng,
    ) -> (r: (Vec<Vec<Vec<S>>>, Option<S>))
        requires
            old(self).wf(),
            batch_ids_ok(input@, old(self).vocab_size()),
            flat_ids(input@).len() <= old(self).max_seq_len(),
            target matches Some(tg) ==> same_shape(input@, tg@) && batch_ids_ok(
                tg@,
                old(self).vocab_size(),
            ),
        ensures
            final(self).wf(),
            final(self).vocab_size() == old(self).vocab_size(),
            final(self).embedding_dim() == old(self).embedding_dim(),
            final(self).max_seq_len() == old(self).max_seq_len(),
            final(self).params() == old(self).params(),
            final(self).grads() == old(self).grads(),
            ({
                let (logits, loss) = r;
                &&& cube_shape(logits@, input@, final(self).vocab_size())
                &&& (loss is Some <==> target is Some)
            }),
            final(self).primed(),
            final(self).cached_rows() == flat_ids(input@).len(),
    {
        let flat = flatten_ids(input);
        proof {
            lemma_flat_ids_ok(input@, self.vocab_size());
        }
        let rows = self.forward_rows(&flat, rng);
        let logits = split_rows(&rows, input, self.linear.output_size);
        let loss = match target {
            Some(tg) => {
                let flat_target = flatten_ids(tg);
                proof {
                    lemma_flat_ids_ok(tg@, self.vocab_size());
                    lemma_flat_len_same_shape(input@, tg@);
                }
                Some(self.cross_entropy_loss(&rows, &flat_target))
            },
            None => None,
        };
        (logits, loss)
    }

    /// The mean over rows of the negative log of the softmax probability
    /// the row assigns to its target id.
    fn cross_entropy_loss(&self, logits: &Vec<Vec<S>>, target: &Vec<usize>) -> (loss: S)
        requires
            self.wf(),
            logits@.len() == target@.len(),
            grid_wf(logits@, self.vocab_size()),
            row_ids_ok(target@, self.vocab_size()),
            self.vocab_size() >= 1,
    {
        let n = logits.len();
        let mut total = S::zero();
        let mut i: usize = 0;
        while i < n
            invariant
                self.wf(),
                self.vocab_size() >= 1,
                n == logits@.len(),
                n == target@.len(),
                grid_wf(logits@, self.vocab_size()),
                row_ids_ok(target@, self.vocab_size()),
                0 <= i <= n,
            decreases n - i,
        {
            let probs = softmax(&logits[i]);
            total = total.sub(probs[target[i]].ln());
            i = i + 1;
        }
        total.div(S::from_usize(n))
    }

    /// The batched backward pass, the forward pass's exact mirror:
    /// output projection, final normalization against the transformer's
    /// cached output, the transformer stack in reverse, and the embedding
    /// gradient accumulation keyed by the same input ids. The positional
    /// encoding has no trainable parameters and its backward is the
    /// identity, so no separate gradient is routed through it. Consumes
    /// the caches of the most recent forward call; `target` is carried
    /// for interface symmetry and not read. Parameters do not change.
    pub fn backward(
        &mut self,
        grad_output: &Vec<Vec<Vec<S>>>,
        input: &Vec<Vec<usize>>,
        target: &Vec<Vec<usize>>,
    )
        requires
            old(self).wf(),
            old(self).primed(),
            batch_ids_ok(input@, old(self).vocab_size()),
            cube_shape(grad_output@, input@, old(self).vocab_size()),
            flat_ids(input@).len() == old(self).cached_rows(),
            same_shape(input@, target@),
        ensures
            final(self).wf(),
            final(self).vocab_size() == old(self).vocab_size(),
            final(self).embedding_dim() == old(self).embedding_dim(),
            final(self).max_seq_len() == old(self).max_seq_len(),
            final(self).params() == old(self).params(),
            !final(self).transformer.primed,
    {
        proof {
            lemma_cube_flat_len(grad_output@, input@, self.vocab_size());
            lemma_flat_ids_ok(input@, self.vocab_size());
        }
        let flat_grad = flatten_cube(grad_output, self.linear.output_size);
        let ids = flatten_ids(input);
        self.backward_rows(&flat_grad, &ids);
    }

    /// The backward pass over a flat gradient stack: one row of logit
    /// gradients per cached position.
    fn backward_rows(&mut self, grad_rows: &Vec<Vec<S>>, ids: &Vec<usize>)
        requires
            old(self).wf(),
            old(self).primed(),
            row_ids_ok(ids@, old(self).vocab_size()),
            grad_rows@.len() == old(self).cached_rows(),
            ids@.len() == old(self).cached_rows(),
            grid_wf(grad_rows@, old(self).vocab_size()),
        ensures
            final(self).wf(),
            final(self).vocab_size() == old(self).vocab_size(),
            final(self).embedding_dim() == old(self).embedding_dim(),
            final(self).max_seq_len() == old(self).max_seq_len(),
            final(self).params() == old(self).params(),
            !final(self).transformer.primed,
    {
        let grad_linear = self.linear.backward(grad_rows);
        let grad_norm = self.layer_norm.backward(&grad_linear, &self.transformer.output);
        let grad_transformer = self.transformer.backward(&grad_norm);
        self.embedding.backward(&grad_transformer, ids);
    }

    /// One pass over every full batch the stream holds: the forward pass
    /// on the batch's ids, the mean cross-entropy loss against the
    /// shifted targets, the backward pass driven by the logits, and one
    /// optimizer step, batch after batch. Returns the mean per-batch
    /// loss.
    pub fn train_epoch(
        &mut self,
        loader: &DataLoader,
        it: &mut DataLoaderIter,
        optimizer: &mut AdamOptimizer<S>,
        rng: &mut rand::rngs::StdRng,
    ) -> (avg_loss: S)
        requires
            old(self).wf(),
            loader.wf(),
            row_ids_ok(loader.data@, old(self).vocab_size()),
            loader.batch_span() <= old(self).max_seq_len(),
            old(optimizer).moments_wf_for(old(self).params()),
            old(optimizer).t + (loader.data@.len() - 1) / loader.batch_span() < u64::MAX,
        ensures
            final(self).wf(),
            final(self).vocab_size() == old(self).vocab_size(),
            final(self).embedding_dim() == old(self).embedding_dim(),
            final(self).max_seq_len() == old(self).max_seq_len(),
            final(optimizer).t == old(optimizer).t + (loader.data@.len() - 1) as int
                / loader.batch_span(),
            final(optimizer).moments_sized_to(final(self).params()),
            final(optimizer).learning_rate == old(optimizer).learning_rate,
    {
        proof {
            assert(loader.batch_span() >= 1) by (nonlinear_arith)
                requires
                    loader.batch_size >= 1,
                    loader.seq_len >= 1,
            ;
            vstd::arithmetic::div_mod::lemma_div_non_zero(
                loader.data@.len() - 1,
                loader.batch_span(),
            );
        }
        let batches = loader.len();
        let mut total = S::zero();
        let mut bi: usize = 0;
        while bi < batches
            invariant
                self.wf(),
                self.vocab_size() == old(self).vocab_size(),
                self.embedding_dim() == old(self).embedding_dim(),
                self.max_seq_len() == old(self).max_seq_len(),
                loader.wf(),
                row_ids_ok(loader.data@, self.vocab_size()),
                loader.batch_span() <= self.max_seq_len(),
                1 <= batches,
                batches == (loader.data@.len() - 1) as int / loader.batch_span(),
                optimizer.moments_wf_for(self.params()),
                bi >= 1 ==> optimizer.moments_sized_to(self.params()),
                optimizer.learning_rate == old(optimizer).learning_rate,
                0 <= bi <= batches,
                optimizer.t == old(optimizer).t + bi,
                old(optimizer).t + batches < u64::MAX,
            decreases batches - bi,
        {
            let batch = it.next(loader);
            let (input, target) = batch.unwrap();
            proof {
                assert forall|k: int| 0 <= k < input@.len() implies #[trigger] input@[k]
                    < self.vocab_size() by {}
                assert forall|k: int| 0 <= k < target@.len() implies #[trigger] target@[k]
                    < self.vocab_size() by {}
            }
            let rows = self.forward_rows(&input, rng);
            let loss = self.cross_entropy_loss(&rows, &target);
            total = total.add(loss);
            self.backward_rows(&rows, &input);
            optimizer.step(self);
            bi = bi + 1;
        }
        total.div(S::from_usize(batches))
    }

    /// The law the optimizer's traversal relies on: the model's gradient
    /// buffers mirror its parameter buffers exactly - equally many, in
    /// the same order, pairwise equally long.
    pub proof fn lemma_aligned(&self)
        requires
            self.wf(),
        ensures
            buffers_aligned(self.params(), self.grads()),
    {
        self.embedding.lemma_aligned();
        self.transformer.lemma_aligned();
        self.layer_norm.lemma_aligned();
        self.linear.lemma_aligned();
        lemma_aligned_concat(
            self.embedding.params(),
            self.embedding.grads(),
            self.transformer.params(),
            self.transformer.grads(),
        );
        lemma_aligned_concat(
            self.embedding.params() + self.transformer.params(),
            self.embedding.grads() + self.transformer.grads(),
            self.layer_norm.params(),
            self.layer_norm.grads(),
        );
        lemma_aligned_concat(
            self.embedding.params() + self.transformer.params() + self.layer_norm.params(),
            self.embedding.grads() + self.transformer.grads() + self.layer_norm.grads(),
            self.linear.params(),
            self.linear.grads(),
        );
    }

    /// A copy of every parameter buffer, in the fixed traversal order.
    pub fn export_params(&self) -> (r: Vec<Vec<S>>)
        requires
            self.wf(),
        ensures
            views(r@) == self.params(),
            r@.len() == self.params().len(),
    {
        let mut out: Vec<Vec<S>> = Vec::new();
        self.embedding.append_params(&mut out);
        self.transformer.append_params(&mut out);
        self.layer_norm.append_params(&mut out);
        self.linear.append_params(&mut out);
        proof {
            assert(views(out@) =~= self.params());
        }
        out
    }

    /// A copy of every gradient buffer, in the same order.
    pub fn export_grads(&self) -> (r: Vec<Vec<S>>)
        requires
            self.wf(),
        ensures
            views(r@) == self.grads(),
            r@.len() == self.grads().len(),
    {
        let mut out: Vec<Vec<S>> = Vec::new();
        self.embedding.append_grads(&mut out);
        self.transformer.append_grads(&mut out);
        self.layer_norm.append_grads(&mut out);
        self.linear.append_grads(&mut out);
        proof {
            assert(views(out@) =~= self.grads());
        }
        out
    }

    /// Replaces every parameter buffer with the equally shaped buffers of
    /// `src`, in the same fixed traversal order, leaving the gradient
    /// buffers untouched. This is also how a checkpoint is loaded back
    /// into an equivalent model.
    pub fn import_params(&mut self, src: &Vec<Vec<S>>)
        requires
            old(self).wf(),
            src@.len() == old(self).params().len(),
            forall|k: int| 0 <= k < old(self).params().len() ==> (#[trigger] src@[k])@.len()
                == old(self).params()[k].len(),
        ensures
            final(self).wf(),
            final(self).vocab_size() == old(self).vocab_size(),
            final(self).embedding_dim() == old(self).embedding_dim(),
            final(self).max_seq_len() == old(self).max_seq_len(),
            final(self).grads() == old(self).grads(),
            final(self).params() == views(src@),
    {
        let ghost ep = old(self).embedding.params();
        let ghost tp = old(self).transformer.params();
        let ghost np = old(self).layer_norm.params();
        let ghost lp = old(self).linear.params();
        proof {
            assert forall|k: int| 0 <= k < ep.len() implies (#[trigger] src@[0 + k])@.len()
                == ep[k].len() by {
                assert(old(self).params()[k] == ep[k]);
                assert(src@[k]@.len() == old(self).params()[k].len());
            }
        }
        let n1 = self.embedding.load_params(src, 0);
        proof {
            assert forall|k: int| 0 <= k < tp.len() implies (#[trigger] src@[n1 + k])@.len()
                == tp[k].len() by {
                assert(old(self).params()[ep.len() + k] == tp[k]);
                assert(src@[ep.len() + k]@.len() == old(self).params()[ep.len() + k].len());
            }
        }
        let n2 = self.transformer.load_params(src, n1);
        proof {
            assert forall|k: int| 0 <= k < np.len() implies (#[trigger] src@[n2 + k])@.len()
                == np[k].len() by {
                assert(old(self).params()[ep.len() + tp.len() + k] == np[k]);
                assert(src@[ep.len() + tp.len() + k]@.len() == old(self).params()[ep.len()
                    + tp.len() + k].len());
            }
        }
        let n3 = self.layer_norm.load_params(src, n2);
        proof {
            assert forall|k: int| 0 <= k < lp.len() implies (#[trigger] src@[n3 + k])@.len()
                == lp[k].len() by {
                assert(old(self).params()[ep.len() + tp.len() + np.len() + k] == lp[k]);
                assert(src@[ep.len() + tp.len() + np.len() + k]@.len() == old(self).params()[
                    ep.len() + tp.len() + np.len() + k
                ].len());
            }
        }
        let n4 = self.linear.load_params(src, n3);
        proof {
            assert(views(src@).subrange(0, src@.len() as int) =~= views(src@));
            assert(self.params() =~= views(src@));
        }
    }
}

/// Inverse-CDF sampling from a categorical distribution: the first index
/// whose cumulative probability exceeds a fresh unit-interval draw. When
/// no prefix exceeds the draw - possible only for a degenerate
/// distribution - the last index is returned, so the result is always a
/// valid index.
pub fn sample_multinomial<S: Scalar>(probs: &Vec<S>, rng: &mut rand::rngs::StdRng) -> (idx: usize)
    requires
        probs@.len() >= 1,
    ensures
        idx < probs@.len(),
{
    let n = probs.len();
    let mut cum: Vec<S> = Vec::new();
    let mut acc = S::zero();
    let mut k: usize = 0;
    while k < n
        invariant
            n == probs@.len(),
            0 <= k <= n,
            cum@.len() == k,
        decreases n - k,
    {
        acc = acc.add(probs[k]);
        cum.push(acc);
        k = k + 1;
    }
    let r = S::sample_unit(rng);
    k = 0;
    while k < n
        invariant
            n == probs@.len(),
            cum@.len() == n,
            0 <= k <= n,
        decreases n - k,
    {
        if r.lt(cum[k]) {
            return k;
        }
        k = k + 1;
    }
    n - 1
}

impl<S: Scalar> Model<S> {
    /// The autoregressive sampling loop: encode the prompt, and then
    /// repeatedly run the forward pass, take the last row's logits,
    /// softmax them, sample the next id, and slide the input window one
    /// position so its length never changes. The loop stops at the
    /// end-of-sequence id or after `config.max_seq_len` draws, and the ids
    /// emitted before the stop are decoded back to text: at most
    /// `config.max_seq_len` of them, each a valid token id, never the
    /// end-of-sequence id itself.
    pub fn generate(
        &mut self,
        prompt: &str,
        tokenizer: &Tokenizer,
        config: &Config,
        rng: &mut rand::rngs::StdRng,
    ) -> (text: String)
        requires
            old(self).wf(),
            tokenizer.wf(),
            tokenizer.vocab_view().len() + 2 <= old(self).vocab_size(),
            1 <= crate::tokenizer::words(prompt@).len(),
            crate::tokenizer::words(prompt@).len() <= old(self).max_seq_len(),
        ensures
            final(self).wf(),
            final(self).params() == old(self).params(),
            exists|gen: Seq<int>|
                {
                    &&& gen.len() <= config.max_seq_len
                    &&& forall|k: int|
                        0 <= k < gen.len() ==> 0 <= #[trigger] gen[k] < old(self).vocab_size()
                            && gen[k] != tokenizer.eos_id
                    &&& text@ == crate::tokenizer::decode_spec(tokenizer.vocab_view(), gen)
                },
    {
        let ghost vs = tokenizer.vocab_view();
        let mut input_ids = tokenizer.encode(prompt);
        proof {
            assert(input_ids@.map_values(|u: usize| u as int).len() == input_ids@.len());
            assert(crate::tokenizer::encode_spec(vs, prompt@).len() == crate::tokenizer::words(
                prompt@,
            ).len());
            assert(input_ids@.len() == crate::tokenizer::words(prompt@).len());
            crate::tokenizer::lemma_encode_spec_range(vs, prompt@);
            assert forall|k: int| 0 <= k < input_ids@.len() implies #[trigger] input_ids@[k]
                < self.vocab_size() by {
                assert(input_ids@[k] as int == crate::tokenizer::encode_spec(vs, prompt@)[k]);
            }
        }
        let mut generated: Vec<usize> = Vec::new();
        let cap = config.max_seq_len;
        let mut step: usize = 0;
        let mut done = false;
        while step < cap && !done
            invariant
                self.wf(),
                self.vocab_size() == old(self).vocab_size(),
                self.embedding_dim() == old(self).embedding_dim(),
                self.max_seq_len() == old(self).max_seq_len(),
                self.params() == old(self).params(),
                1 <= input_ids@.len() <= self.max_seq_len(),
                row_ids_ok(input_ids@, self.vocab_size()),
                0 <= step <= cap,
                generated@.len() <= step,
                row_ids_ok(generated@, self.vocab_size()),
                forall|k: int| 0 <= k < generated@.len() ==> #[trigger] generated@[k]
                    != tokenizer.eos_id,
            decreases cap - step,
        {
            let rows = self.forward_rows(&input_ids, rng);
            let last_index = rows.len() - 1;
            let probs = softmax(&rows[last_index]);
            let next_id = sample_multinomial(&probs, rng);
            if next_id == tokenizer.eos_id {
                done = true;
            } else {
                generated.push(next_id);
                input_ids.push(next_id);
                input_ids.remove(0);
            }
            step = step + 1;
        }
        let text = tokenizer.decode(&generated);
        proof {
            let gen = generated@.map_values(|u: usize| u as int);
            assert(gen.len() <= cap);
            assert(forall|k: int| 0 <= k < gen.len() ==> 0 <= #[trigger] gen[k]
                < self.vocab_size() && gen[k] != tokenizer.eos_id) by {
                assert(forall|k: int| 0 <= k < gen.len() ==> #[trigger] gen[k] == generated@[
                    k
                ] as int);
            }
            assert(text@ == crate::tokenizer::decode_spec(vs, gen));
        }
        text
    }
}

} // verus!
