use vstd::prelude::*;

verus! {

/// The arithmetic that the layers compute with, kept abstract.
///
/// Every forward and backward pass in this crate moves values of a type
/// `S: Scalar` through buffers, caches and gradient accumulators; the
/// verified contracts pin down the shapes of those buffers and where each
/// value travels, while the arithmetic itself stays behind this trait.
/// Nothing is assumed about the results the methods return, so every proof
/// in the crate holds for any implementation; the intended one is a
/// double-precision float, supplied by the embedding program.
pub trait Scalar: Sized + Copy {
    /// The additive identity; also the initial value of gradient and
    /// moment buffers.
    fn zero() -> Self;

    /// The multiplicative identity; also the initial value of a
    /// normalization scale.
    fn one() -> Self;

    fn add(self, other: Self) -> Self;

    fn sub(self, other: Self) -> Self;

    fn mul(self, other: Self) -> Self;

    fn div(self, other: Self) -> Self;

    fn neg(self) -> Self;

    fn sqrt(self) -> Self;

    fn exp(self) -> Self;

    fn ln(self) -> Self;

    fn tanh(self) -> Self;

    fn sin(self) -> Self;

    fn cos(self) -> Self;

    /// `self` raised to the integer power `e`.
    fn powi(self, e: u64) -> Self;

    /// `self` raised to the power `e`.
    fn powf(self, e: Self) -> Self;

    /// The circle constant, needed by the smooth-nonlinearity derivative.
    fn pi() -> Self;

    /// Strict order; the softmax stabilization uses it to find a row's
    /// maximum and the sampler uses it to invert a cumulative distribution.
    fn lt(self, other: Self) -> bool;

    fn from_usize(n: usize) -> Self;

    /// A fresh draw for initializing one parameter entry, taken from the
    /// crate's single explicit randomness source.
    fn sample_init(rng: &mut rand::rngs::StdRng) -> Self;

    /// A fresh draw from the unit interval, used to sample from a
    /// categorical distribution.
    fn sample_unit(rng: &mut rand::rngs::StdRng) -> Self;
}

} // verus!
