use vstd::prelude::*;

verus! {

/// The immutable structural description of a model and its training run,
/// constructed once at startup and shared by reference into every layer
/// constructor.
///
/// The two rates the run needs beyond these shape fields are carried
/// separately, since the crate's arithmetic is abstract: the dropout
/// probability lives here as a fixed-point fraction (`dropout_threshold`),
/// and the learning rate is handed to the optimizer as a scalar.
pub struct Config {
    pub vocab_size: usize,
    pub max_seq_len: usize,
    pub embedding_dim: usize,
    pub num_layers: usize,
    /// Kept for compatibility with configuration files; the attention
    /// derives the head count it actually uses as
    /// `embedding_dim / HEAD_DIM` and never reads this field.
    pub num_heads: usize,
    pub feed_forward_dim: usize,
    /// The dropout probability `p`, scaled to `p * 2^64` and rounded; a
    /// fresh 64-bit draw below this threshold zeroes the activation.
    pub dropout_threshold: u64,
    pub batch_size: usize,
    pub num_epochs: usize,
    pub checkpoint_interval: usize,
}

impl Config {
    /// What every layer constructor relies on: nonempty shapes that leave
    /// room for the index arithmetic of the forward and backward passes.
    pub open spec fn wf(&self) -> bool {
        &&& 1 <= self.vocab_size
        &&& 1 <= self.max_seq_len
        &&& 1 <= self.embedding_dim < usize::MAX
        &&& 1 <= self.feed_forward_dim
    }
}

} // verus!
