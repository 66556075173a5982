use vstd::prelude::*;
use crate::scalar::Scalar;
use crate::tensor::copy_row;
use crate::tensor::grid_wf;

verus! {

/// A precomputed sinusoidal position table, built once at construction
/// and looked up by position. It has no trainable parameters, so the
/// backward pass of the model does not route a gradient through it.
pub struct PositionalEncoding<S> {
    pub max_seq_len: usize,
    pub embedding_dim: usize,
    pub encodings: Vec<Vec<S>>,
}

impl<S: Scalar> PositionalEncoding<S> {
    pub open spec fn wf(&self) -> bool {
        &&& self.encodings@.len() == self.max_seq_len
        &&& grid_wf(self.encodings@, self.embedding_dim as int)
    }

    /// One row per position: alternating sine and cosine of
    /// `pos / 10000^(2i / embedding_dim)` over the pair index `i`, at
    /// geometrically increasing wavelengths.
    pub fn new(max_seq_len: usize, embedding_dim: usize) -> (r: PositionalEncoding<S>)
        requires
            embedding_dim < usize::MAX,
        ensures
            r.wf(),
            r.max_seq_len == max_seq_len,
            r.embedding_dim == embedding_dim,
    {
        let base = S::from_usize(10000);
        let two = S::from_usize(2);
        let dim_s = S::from_usize(embedding_dim);
        let mut encodings: Vec<Vec<S>> = Vec::new();
        let mut pos: usize = 0;
        while pos < max_seq_len
            invariant
                embedding_dim < usize::MAX,
                0 <= pos <= max_seq_len,
                encodings@.len() == pos,
                grid_wf(encodings@, embedding_dim as int),
            decreases max_seq_len - pos,
        {
            let pos_s = S::from_usize(pos);
            let mut row: Vec<S> = Vec::new();
            let mut i: usize = 0;
            while row.len() < embedding_dim
                invariant
                    embedding_dim < usize::MAX,
                    row@.len() <= embedding_dim,
                    i <= row@.len(),
                decreases embedding_dim - row@.len(),
            {
                let frac = two.mul(S::from_usize(i)).div(dim_s);
                let angle = pos_s.div(base.powf(frac));
                row.push(angle.sin());
                if row.len() < embedding_dim {
                    row.push(angle.cos());
                }
                i = i + 1;
            }
            encodings.push(row);
            pos = pos + 1;
        }
        PositionalEncoding { max_seq_len, embedding_dim, encodings }
    }

    /// The first `seq_len` rows of the table, exactly.
    pub fn forward(&self, seq_len: usize) -> (out: Vec<Vec<S>>)
        requires
            self.wf(),
            seq_len <= self.max_seq_len,
        ensures
            out@.len() == seq_len,
            forall|k: int| 0 <= k < seq_len ==> (#[trigger] out@[k])@ == self.encodings@[k]@,
            grid_wf(out@, self.embedding_dim as int),
    {
        let mut out: Vec<Vec<S>> = Vec::new();
        let mut k: usize = 0;
        while k < seq_len
            invariant
                self.wf(),
                seq_len <= self.max_seq_len,
                0 <= k <= seq_len,
                out@.len() == k,
                forall|x: int| 0 <= x < k ==> (#[trigger] out@[x])@ == self.encodings@[x]@,
            decreases seq_len - k,
        {
            out.push(copy_row(&self.encodings[k]));
            k = k + 1;
        }
        out
    }
}

} // verus!
