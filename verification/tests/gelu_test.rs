use llm_training_rust::gelu::{gelu, gelu_backward};
use llm_training_rust::scalar::Scalar;
use rand::Rng;
use rand::SeedableRng;
use rand::rngs::StdRng;

/// Double-precision scalars for exercising the library.
#[derive(Clone, Copy, Debug, PartialEq)]
struct Fp(f64);

impl Scalar for Fp {
    fn zero() -> Self {
        Fp(0.0)
    }
    fn one() -> Self {
        Fp(1.0)
    }
    fn add(self, other: Self) -> Self {
        Fp(self.0 + other.0)
    }
    fn sub(self, other: Self) -> Self {
        Fp(self.0 - other.0)
    }
    fn mul(self, other: Self) -> Self {
        Fp(self.0 * other.0)
    }
    fn div(self, other: Self) -> Self {
        Fp(self.0 / other.0)
    }
    fn neg(self) -> Self {
        Fp(-self.0)
    }
    fn sqrt(self) -> Self {
        Fp(self.0.sqrt())
    }
    fn exp(self) -> Self {
        Fp(self.0.exp())
    }
    fn ln(self) -> Self {
        Fp(self.0.ln())
    }
    fn tanh(self) -> Self {
        Fp(self.0.tanh())
    }
    fn sin(self) -> Self {
        Fp(self.0.sin())
    }
    fn cos(self) -> Self {
        Fp(self.0.cos())
    }
    fn powi(self, e: u64) -> Self {
        Fp(self.0.powi(e as i32))
    }
    fn powf(self, e: Self) -> Self {
        Fp(self.0.powf(e.0))
    }
    fn pi() -> Self {
        Fp(std::f64::consts::PI)
    }
    fn lt(self, other: Self) -> bool {
        self.0 < other.0
    }
    fn from_usize(n: usize) -> Self {
        Fp(n as f64)
    }
    fn sample_init(rng: &mut StdRng) -> Self {
        // Rejection-sampled truncated normal: Box-Muller draws, redrawn
        // until they land within two standard deviations.
        loop {
            let u: f64 = rng.gen::<f64>().max(1e-12);
            let v: f64 = rng.gen();
            let z = (-2.0 * u.ln()).sqrt() * (2.0 * std::f64::consts::PI * v).cos();
            if (-2.0..=2.0).contains(&z) {
                return Fp(z);
            }
        }
    }
    fn sample_unit(rng: &mut StdRng) -> Self {
        Fp(rng.gen::<f64>())
    }
}

#[test]
fn test_gelu_forward() {
    let input = vec![Fp(1.0), Fp(2.0), Fp(3.0)];
    let output = input.iter().map(|&x| gelu(x)).collect::<Vec<_>>();

    assert_eq!(output.len(), input.len());
}

#[test]
fn test_gelu_backward() {
    let input = vec![Fp(1.0), Fp(2.0), Fp(3.0)];
    let output = input.iter().map(|&x| gelu(x)).collect::<Vec<_>>();

    let grad_input = output
        .iter()
        .zip(input.iter())
        .map(|(&o, &i)| gelu_backward(o, i))
        .collect::<Vec<_>>();

    assert_eq!(grad_input.len(), input.len());
}

#[test]
fn test_gelu_exact_values() {
    // gelu(0) = 0 exactly, and the formula matches its written form.
    assert_eq!(gelu(Fp(0.0)).0, 0.0);
    let x = 1.5;
    let expected = 0.5 * x * (1.0 + (x / 2.0f64.sqrt()).tanh());
    assert!((gelu(Fp(x)).0 - expected).abs() < 1e-15);
    // The forward nonlinearity is monotone around the origin and close to
    // the identity for large inputs.
    assert!(gelu(Fp(3.0)).0 > 2.9);
    assert!(gelu(Fp(-3.0)).0.abs() < 0.05);
}
