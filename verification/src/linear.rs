use vstd::prelude::*;
use crate::scalar::Scalar;
use crate::tensor::copy_grid;
use crate::tensor::copy_row;
use crate::tensor::grid_wf;
use crate::tensor::buffers_aligned;
use crate::tensor::views;
use crate::tensor::zeros_grid;
use crate::tensor::zeros_row;

verus! {

/// A dense affine transform: `output = input * W + b`, one row at a time.
///
/// The layer owns its weight and bias parameters together with the
/// equally shaped gradient accumulators its backward pass writes; the
/// optimizer is the only writer of the parameters themselves. The most
/// recent forward input and output are cached and consumed by exactly one
/// following backward call: `primed` tracks that single-use contract as a
/// checked precondition.
pub struct Linear<S> {
    pub input_size: usize,
    pub output_size: usize,
    /// `output_size` rows of `input_size` weights.
    pub weights: Vec<Vec<S>>,
    pub bias: Vec<S>,
    pub grad_weights: Vec<Vec<S>>,
    pub grad_bias: Vec<S>,
    /// The rows of the most recent forward call.
    pub input: Vec<Vec<S>>,
    /// What that call returned.
    pub output: Vec<Vec<S>>,
    /// Whether the caches are filled and not yet consumed.
    pub primed: bool,
}

impl<S: Scalar> Linear<S> {
    pub open spec fn wf(&self) -> bool {
        &&& self.weights@.len() == self.output_size
        &&& grid_wf(self.weights@, self.input_size as int)
        &&& self.bias@.len() == self.output_size
        &&& self.grad_weights@.len() == self.output_size
        &&& grid_wf(self.grad_weights@, self.input_size as int)
        &&& self.grad_bias@.len() == self.output_size
        &&& self.primed ==> {
            &&& grid_wf(self.input@, self.input_size as int)
            &&& self.output@.len() == self.input@.len()
            &&& grid_wf(self.output@, self.output_size as int)
        }
    }

    /// Rows cached for the pending backward call.
    pub open spec fn cached_rows(&self) -> int {
        self.input@.len() as int
    }

    /// The parameter buffers in their fixed traversal order: the weight
    /// rows, then the bias.
    pub open spec fn params(&self) -> Seq<Seq<S>> {
        views(self.weights@).push(self.bias@)
    }

    /// The gradient buffers, in the same order as `params`.
    pub open spec fn grads(&self) -> Seq<Seq<S>> {
        views(self.grad_weights@).push(self.grad_bias@)
    }

    /// Fresh weights and bias drawn from the randomness source; gradient
    /// accumulators start at zero.
    pub fn new(input_size: usize, output_size: usize, rng: &mut rand::rngs::StdRng) -> (r: Linear<
        S,
    >)
        ensures
            r.wf(),
            r.input_size == input_size,
            r.output_size == output_size,
            !r.primed,
    {
        let mut weights: Vec<Vec<S>> = Vec::new();
        let mut o: usize = 0;
        while o < output_size
            invariant
                0 <= o <= output_size,
                weights@.len() == o,
                grid_wf(weights@, input_size as int),
            decreases output_size - o,
        {
            let mut row: Vec<S> = Vec::new();
            let mut k: usize = 0;
            while k < input_size
                invariant
                    0 <= k <= input_size,
                    row@.len() == k,
                decreases input_size - k,
            {
                row.push(S::sample_init(rng));
                k = k + 1;
            }
            weights.push(row);
            o = o + 1;
        }
        let mut bias: Vec<S> = Vec::new();
        let mut o2: usize = 0;
        while o2 < output_size
            invariant
                0 <= o2 <= output_size,
                bias@.len() == o2,
            decreases output_size - o2,
        {
            bias.push(S::sample_init(rng));
            o2 = o2 + 1;
        }
        Linear {
            input_size,
            output_size,
            weights,
            bias,
            grad_weights: zeros_grid(output_size, input_size),
            grad_bias: zeros_row(output_size),
            input: Vec::new(),
            output: Vec::new(),
            primed: false,
        }
    }

    /// Applies the affine transform to every row and caches both the rows
    /// and the result. Every output row is `output_size` long.
    pub fn forward(&mut self, input: &Vec<Vec<S>>) -> (out: Vec<Vec<S>>)
        requires
            old(self).wf(),
            grid_wf(input@, old(self).input_size as int),
        ensures
            final(self).wf(),
            final(self).input_size == old(self).input_size,
            final(self).output_size == old(self).output_size,
            final(self).weights == old(self).weights,
            final(self).bias == old(self).bias,
            final(self).grad_weights == old(self).grad_weights,
            final(self).grad_bias == old(self).grad_bias,
            out@.len() == input@.len(),
            grid_wf(out@, final(self).output_size as int),
            final(self).primed,
            final(self).cached_rows() == input@.len(),
            views(final(self).input@) == views(input@),
            views(final(self).output@) == views(out@),
    {
        let n = input.len();
        let mut out: Vec<Vec<S>> = Vec::new();
        let mut i: usize = 0;
        while i < n
            invariant
                self.wf(),
                grid_wf(input@, self.input_size as int),
                n == input@.len(),
                0 <= i <= n,
                out@.len() == i,
                grid_wf(out@, self.output_size as int),
            decreases n - i,
        {
            let row = &input[i];
            let mut orow: Vec<S> = Vec::new();
            let mut o: usize = 0;
            while o < self.output_size
                invariant
                    self.wf(),
                    row@.len() == self.input_size,
                    0 <= o <= self.output_size,
                    orow@.len() == o,
                decreases self.output_size - o,
            {
                let mut acc = self.bias[o];
                let mut k: usize = 0;
                while k < self.input_size
                    invariant
                        self.wf(),
                        row@.len() == self.input_size,
                        o < self.output_size,
                        0 <= k <= self.input_size,
                    decreases self.input_size - k,
                {
                    acc = acc.add(self.weights[o][k].mul(row[k]));
                    k = k + 1;
                }
                orow.push(acc);
                o = o + 1;
            }
            out.push(orow);
            i = i + 1;
        }
        self.input = copy_grid(input);
        self.output = copy_grid(&out);
        self.primed = true;
        out
    }

    /// Consumes the cache: accumulates the weight gradient (outer product
    /// of cached input and incoming gradient, summed over rows) and the
    /// bias gradient (column sum of the incoming gradient) into the
    /// layer's own gradient buffers, and returns the gradient with
    /// respect to the input, `grad_output * W^T`. Every returned row is
    /// `input_size` long. Parameters themselves do not change.
    pub fn backward(&mut self, grad_output: &Vec<Vec<S>>) -> (grad_input: Vec<Vec<S>>)
        requires
            old(self).wf(),
            old(self).primed,
            grad_output@.len() == old(self).cached_rows(),
            grid_wf(grad_output@, old(self).output_size as int),
        ensures
            final(self).wf(),
            final(self).input_size == old(self).input_size,
            final(self).output_size == old(self).output_size,
            final(self).weights == old(self).weights,
            final(self).bias == old(self).bias,
            !final(self).primed,
            grad_input@.len() == grad_output@.len(),
            grid_wf(grad_input@, final(self).input_size as int),
    {
        let n = grad_output.len();
        let mut gw = copy_grid(&self.grad_weights);
        let mut gb = copy_row(&self.grad_bias);
        let mut grad_input: Vec<Vec<S>> = Vec::new();
        let mut i: usize = 0;
        while i < n
            invariant
                self.wf(),
                self.primed,
                n == grad_output@.len(),
                n == self.input@.len(),
                grid_wf(grad_output@, self.output_size as int),
                gw@.len() == self.output_size,
                grid_wf(gw@, self.input_size as int),
                gb@.len() == self.output_size,
                0 <= i <= n,
                grad_input@.len() == i,
                grid_wf(grad_input@, self.input_size as int),
            decreases n - i,
        {
            let grow = &grad_output[i];
            let xrow = &self.input[i];
            let mut o: usize = 0;
            while o < self.output_size
                invariant
                    self.wf(),
                    grow@.len() == self.output_size,
                    xrow@.len() == self.input_size,
                    gw@.len() == self.output_size,
                    grid_wf(gw@, self.input_size as int),
                    gb@.len() == self.output_size,
                    0 <= o <= self.output_size,
                decreases self.output_size - o,
            {
                let g = grow[o];
                gb[o] = gb[o].add(g);
                let mut k: usize = 0;
                while k < self.input_size
                    invariant
                        self.wf(),
                        xrow@.len() == self.input_size,
                        gw@.len() == self.output_size,
                        grid_wf(gw@, self.input_size as int),
                        o < self.output_size,
                        0 <= k <= self.input_size,
                    decreases self.input_size - k,
                {
                    let updated = gw[o][k].add(xrow[k].mul(g));
                    gw[o][k] = updated;
                    proof {
                        assert(grid_wf(gw@, self.input_size as int));
                    }
                    k = k + 1;
                }
                o = o + 1;
            }
            let mut girow: Vec<S> = Vec::new();
            let mut k2: usize = 0;
            while k2 < self.input_size
                invariant
                    self.wf(),
                    grow@.len() == self.output_size,
                    0 <= k2 <= self.input_size,
                    girow@.len() == k2,
                decreases self.input_size - k2,
            {
                let mut acc = S::zero();
                let mut o2: usize = 0;
                while o2 < self.output_size
                    invariant
                        self.wf(),
                        grow@.len() == self.output_size,
                        k2 < self.input_size,
                        0 <= o2 <= self.output_size,
                    decreases self.output_size - o2,
                {
                    acc = acc.add(grow[o2].mul(self.weights[o2][k2]));
                    o2 = o2 + 1;
                }
                girow.push(acc);
                k2 = k2 + 1;
            }
            grad_input.push(girow);
            i = i + 1;
        }
        self.grad_weights = gw;
        self.grad_bias = gb;
        self.primed = false;
        grad_input
    }

    /// The gradient buffers mirror the parameter buffers exactly.
    pub proof fn lemma_aligned(&self)
        requires
            self.wf(),
        ensures
            buffers_aligned(self.params(), self.grads()),
    {
        assert forall|k: int| 0 <= k < self.params().len() implies (#[trigger] self.params()[
            k
        ]).len() == self.grads()[k].len() by {
            if k < self.output_size {
                assert(self.params()[k] == self.weights@[k]@);
                assert(self.grads()[k] == self.grad_weights@[k]@);
            } else {
                assert(self.params()[k] == self.bias@);
                assert(self.grads()[k] == self.grad_bias@);
            }
        }
    }

    /// Appends copies of the parameter buffers, in traversal order.
    pub fn append_params(&self, out: &mut Vec<Vec<S>>)
        requires
            self.wf(),
        ensures
            final(out)@.len() == old(out)@.len() + self.params().len(),
            views(final(out)@) == views(old(out)@) + self.params(),
    {
        let ghost orig = out@;
        let ghost base = out@.len() as int;
        let mut o: usize = 0;
        while o < self.output_size
            invariant
                self.wf(),
                base == orig.len(),
                0 <= o <= self.output_size,
                out@.len() == base + o,
                forall|x: int| 0 <= x < base ==> #[trigger] out@[x] == orig[x],
                forall|x: int| 0 <= x < o ==> (#[trigger] out@[base + x])@ == self.weights@[x]@,
            decreases self.output_size - o,
        {
            out.push(copy_row(&self.weights[o]));
            o = o + 1;
        }
        out.push(copy_row(&self.bias));
        proof {
            assert(out@[base + self.output_size]@ == self.bias@);
            assert forall|x: int| 0 <= x < out@.len() implies (#[trigger] views(out@)[x]) == (views(
                orig,
            ) + self.params())[x] by {
                assert(views(out@)[x] == out@[x]@);
                if x < base {
                    assert(out@[x] == orig[x]);
                } else if x < base + self.output_size {
                    assert(out@[base + (x - base)]@ == self.weights@[x - base]@);
                    assert(self.params()[x - base] == self.weights@[x - base]@);
                } else {
                    assert(self.params()[x - base] == self.bias@);
                }
            }
            assert(views(out@) =~= views(orig) + self.params());
        }
    }

    /// Appends copies of the gradient buffers, in the same order.
    pub fn append_grads(&self, out: &mut Vec<Vec<S>>)
        requires
            self.wf(),
        ensures
            final(out)@.len() == old(out)@.len() + self.grads().len(),
            views(final(out)@) == views(old(out)@) + self.grads(),
    {
        let ghost orig = out@;
        let ghost base = out@.len() as int;
        let mut o: usize = 0;
        while o < self.output_size
            invariant
                self.wf(),
                base == orig.len(),
                0 <= o <= self.output_size,
                out@.len() == base + o,
                forall|x: int| 0 <= x < base ==> #[trigger] out@[x] == orig[x],
                forall|x: int| 0 <= x < o ==> (#[trigger] out@[base + x])@ == self.grad_weights@[x]@,
            decreases self.output_size - o,
        {
            out.push(copy_row(&self.grad_weights[o]));
            o = o + 1;
        }
        out.push(copy_row(&self.grad_bias));
        proof {
            assert(out@[base + self.output_size]@ == self.grad_bias@);
            assert forall|x: int| 0 <= x < out@.len() implies (#[trigger] views(out@)[x]) == (views(
                orig,
            ) + self.grads())[x] by {
                assert(views(out@)[x] == out@[x]@);
                if x < base {
                    assert(out@[x] == orig[x]);
                } else if x < base + self.output_size {
                    assert(out@[base + (x - base)]@ == self.grad_weights@[x - base]@);
                    assert(self.grads()[x - base] == self.grad_weights@[x - base]@);
                } else {
                    assert(self.grads()[x - base] == self.grad_bias@);
                }
            }
            assert(views(out@) =~= views(orig) + self.grads());
        }
    }

    /// Replaces the parameter buffers with the slice of `src` that starts
    /// at `start`, leaving everything else - the gradient buffers above
    /// all - untouched, and returns the position right after the slice.
    pub fn load_params(&mut self, src: &Vec<Vec<S>>, start: usize) -> (next: usize)
        requires
            old(self).wf(),
            start + old(self).params().len() <= src@.len(),
            forall|k: int| 0 <= k < old(self).params().len() ==> (#[trigger] src@[start + k])@.len()
                == old(self).params()[k].len(),
        ensures
            final(self).wf(),
            final(self).input_size == old(self).input_size,
            final(self).output_size == old(self).output_size,
            final(self).grads() == old(self).grads(),
            final(self).input == old(self).input,
            final(self).output == old(self).output,
            final(self).primed == old(self).primed,
            next == start + old(self).params().len(),
            final(self).params() == views(src@).subrange(start as int, next as int),
    {
        let ghost ps = old(self).params();
        let avail = src.len();
        proof {
            assert(ps.len() == self.output_size + 1);
        }
        let mut weights: Vec<Vec<S>> = Vec::new();
        let mut o: usize = 0;
        while o < self.output_size
            invariant
                self.wf(),
                ps == old(self).params(),
                self == old(self),
                avail == src@.len(),
                start + ps.len() <= src@.len(),
                ps.len() == self.output_size + 1,
                forall|k: int| 0 <= k < ps.len() ==> (#[trigger] src@[start + k])@.len()
                    == ps[k].len(),
                0 <= o <= self.output_size,
                weights@.len() == o,
                forall|x: int| 0 <= x < o ==> (#[trigger] weights@[x])@ == src@[start + x]@,
                grid_wf(weights@, self.input_size as int),
            decreases self.output_size - o,
        {
            proof {
                assert(ps[o as int] == self.weights@[o as int]@);
            }
            weights.push(copy_row(&src[start + o]));
            o = o + 1;
        }
        proof {
            assert(ps[self.output_size as int] == self.bias@);
        }
        let bias = copy_row(&src[start + self.output_size]);
        let next = start + self.output_size + 1;
        self.weights = weights;
        self.bias = bias;
        proof {
            assert(self.params() =~= views(src@).subrange(start as int, next as int));
        }
        next
    }
}

} // verus!
