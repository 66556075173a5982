use vstd::prelude::*;
use crate::rng::draw_u64;
use crate::scalar::Scalar;
use crate::tensor::grid_wf;

verus! {

/// Stochastic masking: each scalar is independently zeroed with the
/// configured probability and passed through unchanged otherwise, with no
/// inverse-scaling compensation.
///
/// The probability is carried as a 64-bit fixed-point threshold: a cell
/// is dropped exactly when a fresh 64-bit draw falls below `threshold`,
/// so a threshold of `p * 2^64` drops with probability `p`. The binary
/// mask of the most recent forward call is cached and consumed by exactly
/// one following backward call, which zeroes the same cells of the
/// incoming gradient.
pub struct Dropout<S> {
    pub threshold: u64,
    /// The scalar written into dropped cells.
    pub zero: S,
    /// The mask of the most recent forward call; `true` means dropped.
    pub mask: Vec<Vec<bool>>,
    /// Whether the mask is filled and not yet consumed.
    pub primed: bool,
}

impl<S: Scalar> Dropout<S> {
    pub fn new(threshold: u64) -> (r: Dropout<S>)
        ensures
            r.threshold == threshold,
            !r.primed,
    {
        Dropout { threshold, zero: S::zero(), mask: Vec::new(), primed: false }
    }

    /// Draws a fresh mask over the input's shape and applies it: dropped
    /// cells of the output hold `zero`, all others hold the input
    /// unchanged.
    pub fn forward(&mut self, input: &Vec<Vec<S>>, rng: &mut rand::rngs::StdRng) -> (out: Vec<
        Vec<S>,
    >)
        ensures
            final(self).threshold == old(self).threshold,
            final(self).zero == old(self).zero,
            final(self).primed,
            final(self).mask@.len() == input@.len(),
            forall|i: int| 0 <= i < input@.len() ==> (#[trigger] final(self).mask@[i])@.len()
                == input@[i]@.len(),
            out@.len() == input@.len(),
            forall|i: int| 0 <= i < input@.len() ==> (#[trigger] out@[i])@.len()
                == input@[i]@.len(),
            forall|i: int, j: int|
                0 <= i < input@.len() && 0 <= j < input@[i]@.len() ==> #[trigger] out@[i]@[j] == (
                if final(self).mask@[i]@[j] {
                    final(self).zero
                } else {
                    input@[i]@[j]
                }),
    {
        let n = input.len();
        let mut mask: Vec<Vec<bool>> = Vec::new();
        let mut out: Vec<Vec<S>> = Vec::new();
        let mut i: usize = 0;
        while i < n
            invariant
                n == input@.len(),
                0 <= i <= n,
                mask@.len() == i,
                out@.len() == i,
                forall|x: int| 0 <= x < i ==> (#[trigger] mask@[x])@.len() == input@[x]@.len(),
                forall|x: int| 0 <= x < i ==> (#[trigger] out@[x])@.len() == input@[x]@.len(),
                forall|x: int, j: int|
                    0 <= x < i && 0 <= j < input@[x]@.len() ==> #[trigger] out@[x]@[j] == (
                    if mask@[x]@[j] {
                        self.zero
                    } else {
                        input@[x]@[j]
                    }),
                self == old(self),
            decreases n - i,
        {
            let row = &input[i];
            let cols = row.len();
            let mut mrow: Vec<bool> = Vec::new();
            let mut orow: Vec<S> = Vec::new();
            let mut j: usize = 0;
            while j < cols
                invariant
                    cols == row@.len(),
                    0 <= j <= cols,
                    mrow@.len() == j,
                    orow@.len() == j,
                    forall|y: int| 0 <= y < j ==> #[trigger] orow@[y] == (if mrow@[y] {
                        self.zero
                    } else {
                        row@[y]
                    }),
                    self == old(self),
                decreases cols - j,
            {
                let dropped = draw_u64(rng) < self.threshold;
                mrow.push(dropped);
                if dropped {
                    orow.push(self.zero);
                } else {
                    orow.push(row[j]);
                }
                j = j + 1;
            }
            mask.push(mrow);
            out.push(orow);
            i = i + 1;
        }
        self.mask = mask;
        self.primed = true;
        out
    }

    /// Consumes the mask: the gradient of a dropped cell is `zero`, every
    /// other cell of the incoming gradient passes through unchanged.
    pub fn backward(&mut self, grad_output: &Vec<Vec<S>>) -> (grad_input: Vec<Vec<S>>)
        requires
            old(self).primed,
            grad_output@.len() == old(self).mask@.len(),
            forall|i: int| 0 <= i < grad_output@.len() ==> (#[trigger] grad_output@[i])@.len()
                == old(self).mask@[i]@.len(),
        ensures
            final(self).threshold == old(self).threshold,
            final(self).zero == old(self).zero,
            final(self).mask == old(self).mask,
            !final(self).primed,
            grad_input@.len() == grad_output@.len(),
            forall|i: int| 0 <= i < grad_output@.len() ==> (#[trigger] grad_input@[i])@.len()
                == grad_output@[i]@.len(),
            forall|i: int, j: int|
                0 <= i < grad_output@.len() && 0 <= j < grad_output@[i]@.len()
                    ==> #[trigger] grad_input@[i]@[j] == (if final(self).mask@[i]@[j] {
                    final(self).zero
                } else {
                    grad_output@[i]@[j]
                }),
    {
        let n = grad_output.len();
        let mut grad_input: Vec<Vec<S>> = Vec::new();
        let mut i: usize = 0;
        while i < n
            invariant
                self == old(self),
                self.primed,
                n == grad_output@.len(),
                n == self.mask@.len(),
                forall|x: int| 0 <= x < n ==> (#[trigger] grad_output@[x])@.len()
                    == self.mask@[x]@.len(),
                0 <= i <= n,
                grad_input@.len() == i,
                forall|x: int| 0 <= x < i ==> (#[trigger] grad_input@[x])@.len()
                    == grad_output@[x]@.len(),
                forall|x: int, j: int|
                    0 <= x < i && 0 <= j < grad_output@[x]@.len() ==> #[trigger] grad_input@[x]@[j]
                        == (if self.mask@[x]@[j] {
                        self.zero
                    } else {
                        grad_output@[x]@[j]
                    }),
            decreases n - i,
        {
            let grow = &grad_output[i];
            let mrow = &self.mask[i];
            let cols = grow.len();
            let mut girow: Vec<S> = Vec::new();
            let mut j: usize = 0;
            while j < cols
                invariant
                    self == old(self),
                    cols == grow@.len(),
                    cols == mrow@.len(),
                    0 <= j <= cols,
                    girow@.len() == j,
                    forall|y: int| 0 <= y < j ==> #[trigger] girow@[y] == (if mrow@[y] {
                        self.zero
                    } else {
                        grow@[y]
                    }),
                decreases cols - j,
            {
                if mrow[j] {
                    girow.push(self.zero);
                } else {
                    girow.push(grow[j]);
                }
                j = j + 1;
            }
            grad_input.push(girow);
            i = i + 1;
        }
        self.primed = false;
        grad_input
    }
}

} // verus!
