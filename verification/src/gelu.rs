use vstd::prelude::*;
use crate::scalar::Scalar;

verus! {

/// The smooth nonlinearity of the feed-forward block:
/// `0.5 * x * (1 + tanh(x / sqrt(2)))`.
pub fn gelu<S: Scalar>(x: S) -> S {
    let one = S::one();
    let two = S::from_usize(2);
    let half = one.div(two);
    half.mul(x).mul(one.add(x.div(two.sqrt()).tanh()))
}

/// The derivative the backward pass applies to the nonlinearity: the
/// tanh-based approximation `cdf + input * pdf`, scaled by the incoming
/// gradient, with `cdf = 0.5 * (1 + tanh(input * sqrt(2 / pi)))` and
/// `pdf = exp(-input^2 / 2) / sqrt(2 * pi)`.
pub fn gelu_backward<S: Scalar>(grad_output: S, input: S) -> S {
    let one = S::one();
    let two = S::from_usize(2);
    let half = one.div(two);
    let sqrt_2_over_pi = two.div(S::pi()).sqrt();
    let cdf = half.mul(one.add(input.mul(sqrt_2_over_pi).tanh()));
    let pdf = half.mul(input).mul(input).neg().exp().div(two.mul(S::pi()).sqrt());
    grad_output.mul(cdf.add(input.mul(pdf)))
}

} // verus!
