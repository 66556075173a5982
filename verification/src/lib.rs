pub mod attention;
pub mod config;
pub mod data_loader;
pub mod dropout;
pub mod embedding;
pub mod feed_forward;
pub mod gelu;
pub mod layer_norm;
pub mod linear;
pub mod model;
pub mod optimizer;
pub mod positional_encoding;
pub mod rng;
pub mod scalar;
pub mod tensor;
pub mod tokenizer;
pub mod transformer;
pub mod utils;

use vstd::prelude::*;

verus! {

/// Width of one attention head: every embedding is read as consecutive
/// slices of this many scalars, one slice per head.
pub const HEAD_DIM: usize = 64;

} // verus!
