use vstd::prelude::*;
use crate::scalar::Scalar;
use crate::tensor::buffers_aligned;
use crate::tensor::copy_grid;
use crate::tensor::copy_row;
use crate::tensor::grid_wf;
use crate::tensor::views;
use crate::tensor::zeros_grid;

verus! {

/// A token-id to vector lookup table.
///
/// The table rows are the parameters; the backward pass accumulates each
/// incoming gradient row into the gradient buffer's row for its token id,
/// so a repeated id sums all of its contributions. The optimizer is the
/// only writer of the table itself.
pub struct Embedding<S> {
    pub vocab_size: usize,
    pub embedding_dim: usize,
    pub embedding_matrix: Vec<Vec<S>>,
    pub grad_matrix: Vec<Vec<S>>,
}

impl<S: Scalar> Embedding<S> {
    pub open spec fn wf(&self) -> bool {
        &&& self.embedding_matrix@.len() == self.vocab_size
        &&& grid_wf(self.embedding_matrix@, self.embedding_dim as int)
        &&& self.grad_matrix@.len() == self.vocab_size
        &&& grid_wf(self.grad_matrix@, self.embedding_dim as int)
    }

    /// The parameter buffers: one per table row, in id order.
    pub open spec fn params(&self) -> Seq<Seq<S>> {
        views(self.embedding_matrix@)
    }

    /// The gradient buffers, in the same order as `params`.
    pub open spec fn grads(&self) -> Seq<Seq<S>> {
        views(self.grad_matrix@)
    }

    /// A fresh table drawn from the randomness source; gradients start at
    /// zero.
    pub fn new(vocab_size: usize, embedding_dim: usize, rng: &mut rand::rngs::StdRng) -> (r:
        Embedding<S>)
        ensures
            r.wf(),
            r.vocab_size == vocab_size,
            r.embedding_dim == embedding_dim,
    {
        let mut m: Vec<Vec<S>> = Vec::new();
        let mut i: usize = 0;
        while i < vocab_size
            invariant
                0 <= i <= vocab_size,
                m@.len() == i,
                grid_wf(m@, embedding_dim as int),
            decreases vocab_size - i,
        {
            let mut row: Vec<S> = Vec::new();
            let mut k: usize = 0;
            while k < embedding_dim
                invariant
                    0 <= k <= embedding_dim,
                    row@.len() == k,
                decreases embedding_dim - k,
            {
                row.push(S::sample_init(rng));
                k = k + 1;
            }
            m.push(row);
            i = i + 1;
        }
        Embedding {
            vocab_size,
            embedding_dim,
            embedding_matrix: m,
            grad_matrix: zeros_grid(vocab_size, embedding_dim),
        }
    }

    /// The table rows for the given ids, in order: a pure gather.
    pub fn forward(&self, input: &Vec<usize>) -> (out: Vec<Vec<S>>)
        requires
            self.wf(),
            forall|k: int| 0 <= k < input@.len() ==> #[trigger] input@[k] < self.vocab_size,
        ensures
            out@.len() == input@.len(),
            forall|k: int| 0 <= k < input@.len() ==> (#[trigger] out@[k])@
                == self.embedding_matrix@[input@[k] as int]@,
            grid_wf(out@, self.embedding_dim as int),
    {
        let mut out: Vec<Vec<S>> = Vec::new();
        let mut k: usize = 0;
        while k < input.len()
            invariant
                self.wf(),
                forall|x: int| 0 <= x < input@.len() ==> #[trigger] input@[x] < self.vocab_size,
                0 <= k <= input@.len(),
                out@.len() == k,
                forall|x: int| 0 <= x < k ==> (#[trigger] out@[x])@
                    == self.embedding_matrix@[input@[x] as int]@,
            decreases input@.len() - k,
        {
            out.push(copy_row(&self.embedding_matrix[input[k]]));
            k = k + 1;
        }
        out
    }

    /// Adds each gradient row into the gradient buffer's row for its id;
    /// the table itself does not change, and neither does the gradient
    /// row of any id that does not occur in the call.
    pub fn backward(&mut self, grad_output: &Vec<Vec<S>>, input: &Vec<usize>)
        requires
            old(self).wf(),
            grad_output@.len() == input@.len(),
            grid_wf(grad_output@, old(self).embedding_dim as int),
            forall|k: int| 0 <= k < input@.len() ==> #[trigger] input@[k] < old(self).vocab_size,
        ensures
            final(self).wf(),
            final(self).vocab_size == old(self).vocab_size,
            final(self).embedding_dim == old(self).embedding_dim,
            final(self).embedding_matrix == old(self).embedding_matrix,
            forall|v: usize|
                v < old(self).vocab_size && !input@.contains(v)
                    ==> (#[trigger] final(self).grad_matrix@[v as int])@ == old(
                    self,
                ).grad_matrix@[v as int]@,
    {
        let mut gm = copy_grid(&self.grad_matrix);
        let mut i: usize = 0;
        while i < input.len()
            invariant
                self.wf(),
                grad_output@.len() == input@.len(),
                grid_wf(grad_output@, self.embedding_dim as int),
                forall|k: int| 0 <= k < input@.len() ==> #[trigger] input@[k] < self.vocab_size,
                gm@.len() == self.vocab_size,
                grid_wf(gm@, self.embedding_dim as int),
                0 <= i <= input@.len(),
                forall|v: usize|
                    v < self.vocab_size && !input@.contains(v) ==> (#[trigger] gm@[v as int])@
                        == self.grad_matrix@[v as int]@,
            decreases input@.len() - i,
        {
            let id = input[i];
            let grow = &grad_output[i];
            let mut new_row: Vec<S> = Vec::new();
            let mut k: usize = 0;
            while k < self.embedding_dim
                invariant
                    self.wf(),
                    grow@.len() == self.embedding_dim,
                    id < self.vocab_size,
                    gm@.len() == self.vocab_size,
                    grid_wf(gm@, self.embedding_dim as int),
                    0 <= k <= self.embedding_dim,
                    new_row@.len() == k,
                decreases self.embedding_dim - k,
            {
                new_row.push(gm[id][k].add(grow[k]));
                k = k + 1;
            }
            gm[id] = new_row;
            proof {
                assert(input@.contains(id)) by {
                    assert(input@[i as int] == id);
                }
                assert(grid_wf(gm@, self.embedding_dim as int));
            }
            i = i + 1;
        }
        self.grad_matrix = gm;
    }

    /// The gradient buffers mirror the parameter buffers exactly.
    pub proof fn lemma_aligned(&self)
        requires
            self.wf(),
        ensures
            buffers_aligned(self.params(), self.grads()),
    {
        assert forall|k: int| 0 <= k < self.params().len() implies (#[trigger] self.params()[
            k
        ]).len() == self.grads()[k].len() by {
            assert(self.params()[k] == self.embedding_matrix@[k]@);
            assert(self.grads()[k] == self.grad_matrix@[k]@);
        }
    }

    /// Appends copies of the parameter buffers, in traversal order.
    pub fn append_params(&self, out: &mut Vec<Vec<S>>)
        requires
            self.wf(),
        ensures
            final(out)@.len() == old(out)@.len() + self.params().len(),
            views(final(out)@) == views(old(out)@) + self.params(),
    {
        let ghost orig = out@;
        let ghost base = out@.len() as int;
        let mut i: usize = 0;
        while i < self.vocab_size
            invariant
                self.wf(),
                base == orig.len(),
                0 <= i <= self.vocab_size,
                out@.len() == base + i,
                forall|x: int| 0 <= x < base ==> #[trigger] out@[x] == orig[x],
                forall|x: int| 0 <= x < i ==> (#[trigger] out@[base + x])@
                    == self.embedding_matrix@[x]@,
            decreases self.vocab_size - i,
        {
            out.push(copy_row(&self.embedding_matrix[i]));
            i = i + 1;
        }
        proof {
            assert forall|x: int| 0 <= x < out@.len() implies (#[trigger] views(out@)[x]) == (views(
                orig,
            ) + self.params())[x] by {
                assert(views(out@)[x] == out@[x]@);
                if x < base {
                    assert(out@[x] == orig[x]);
                } else {
                    assert(out@[base + (x - base)]@ == self.embedding_matrix@[x - base]@);
                    assert(self.params()[x - base] == self.embedding_matrix@[x - base]@);
                }
            }
            assert(views(out@) =~= views(orig) + self.params());
        }
    }

    /// Appends copies of the gradient buffers, in the same order.
    pub fn append_grads(&self, out: &mut Vec<Vec<S>>)
        requires
            self.wf(),
        ensures
            final(out)@.len() == old(out)@.len() + self.grads().len(),
            views(final(out)@) == views(old(out)@) + self.grads(),
    {
        let ghost orig = out@;
        let ghost base = out@.len() as int;
        let mut i: usize = 0;
        while i < self.vocab_size
            invariant
                self.wf(),
                base == orig.len(),
                0 <= i <= self.vocab_size,
                out@.len() == base + i,
                forall|x: int| 0 <= x < base ==> #[trigger] out@[x] == orig[x],
                forall|x: int| 0 <= x < i ==> (#[trigger] out@[base + x])@ == self.grad_matrix@[x]@,
            decreases self.vocab_size - i,
        {
            out.push(copy_row(&self.grad_matrix[i]));
            i = i + 1;
        }
        proof {
            assert forall|x: int| 0 <= x < out@.len() implies (#[trigger] views(out@)[x]) == (views(
                orig,
            ) + self.grads())[x] by {
                assert(views(out@)[x] == out@[x]@);
                if x < base {
                    assert(out@[x] == orig[x]);
                } else {
                    assert(out@[base + (x - base)]@ == self.grad_matrix@[x - base]@);
                    assert(self.grads()[x - base] == self.grad_matrix@[x - base]@);
                }
            }
            assert(views(out@) =~= views(orig) + self.grads());
        }
    }

    /// Replaces the table rows with the slice of `src` that starts at
    /// `start`, leaving the gradient buffers untouched, and returns the
    /// position right after the slice.
    pub fn load_params(&mut self, src: &Vec<Vec<S>>, start: usize) -> (next: usize)
        requires
            old(self).wf(),
            start + old(self).params().len() <= src@.len(),
            forall|k: int| 0 <= k < old(self).params().len() ==> (#[trigger] src@[start + k])@.len()
                == old(self).params()[k].len(),
        ensures
            final(self).wf(),
            final(self).vocab_size == old(self).vocab_size,
            final(self).embedding_dim == old(self).embedding_dim,
            final(self).grads() == old(self).grads(),
            next == start + old(self).params().len(),
            final(self).params() == views(src@).subrange(start as int, next as int),
    {
        let ghost ps = old(self).params();
        let avail = src.len();
        proof {
            assert(ps.len() == self.vocab_size);
        }
        let mut m: Vec<Vec<S>> = Vec::new();
        let mut i: usize = 0;
        while i < self.vocab_size
            invariant
                self.wf(),
                ps == old(self).params(),
                self == old(self),
                avail == src@.len(),
                start + ps.len() <= src@.len(),
                forall|k: int| 0 <= k < ps.len() ==> (#[trigger] src@[start + k])@.len()
                    == ps[k].len(),
                ps.len() == self.vocab_size,
                0 <= i <= self.vocab_size,
                m@.len() == i,
                forall|x: int| 0 <= x < i ==> (#[trigger] m@[x])@ == src@[start + x]@,
                grid_wf(m@, self.embedding_dim as int),
            decreases self.vocab_size - i,
        {
            proof {
                assert(ps[i as int] == self.embedding_matrix@[i as int]@);
                assert(src@[start + i as int]@.len() == ps[i as int].len());
                assert(src@[start + i as int]@.len() == self.embedding_dim);
            }
            m.push(copy_row(&src[start + i]));
            i = i + 1;
        }
        let next = start + self.vocab_size;
        self.embedding_matrix = m;
        proof {
            assert(self.params() =~= views(src@).subrange(start as int, next as int));
        }
        next
    }
}

} // verus!
