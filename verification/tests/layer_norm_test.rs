use llm_training_rust::layer_norm::LayerNorm;
use llm_training_rust::scalar::Scalar;
use rand::Rng;
use rand::SeedableRng;
use rand::rngs::StdRng;

/// Double-precision scalars for exercising the library.
#[derive(Clone, Copy, Debug, PartialEq)]
struct Fp(f64);

impl Scalar for Fp {
    fn zero() -> Self {
        Fp(0.0)
    }
    fn one() -> Self {
        Fp(1.0)
    }
    fn add(self, other: Self) -> Self {
        Fp(self.0 + other.0)
    }
    fn sub(self, other: Self) -> Self {
        Fp(self.0 - other.0)
    }
    fn mul(self, other: Self) -> Self {
        Fp(self.0 * other.0)
    }
    fn div(self, other: Self) -> Self {
        Fp(self.0 / other.0)
    }
    fn neg(self) -> Self {
        Fp(-self.0)
    }
    fn sqrt(self) -> Self {
        Fp(self.0.sqrt())
    }
    fn exp(self) -> Self {
        Fp(self.0.exp())
    }
    fn ln(self) -> Self {
        Fp(self.0.ln())
    }
    fn tanh(self) -> Self {
        Fp(self.0.tanh())
    }
    fn sin(self) -> Self {
        Fp(self.0.sin())
    }
    fn cos(self) -> Self {
        Fp(self.0.cos())
    }
    fn powi(self, e: u64) -> Self {
        Fp(self.0.powi(e as i32))
    }
    fn powf(self, e: Self) -> Self {
        Fp(self.0.powf(e.0))
    }
    fn pi() -> Self {
        Fp(std::f64::consts::PI)
    }
    fn lt(self, other: Self) -> bool {
        self.0 < other.0
    }
    fn from_usize(n: usize) -> Self {
        Fp(n as f64)
    }
    fn sample_init(rng: &mut StdRng) -> Self {
        // Rejection-sampled truncated normal: Box-Muller draws, redrawn
        // until they land within two standard deviations.
        loop {
            let u: f64 = rng.gen::<f64>().max(1e-12);
            let v: f64 = rng.gen();
            let z = (-2.0 * u.ln()).sqrt() * (2.0 * std::f64::consts::PI * v).cos();
            if (-2.0..=2.0).contains(&z) {
                return Fp(z);
            }
        }
    }
    fn sample_unit(rng: &mut StdRng) -> Self {
        Fp(rng.gen::<f64>())
    }
}

#[test]
fn test_layer_norm_forward() {
    let dim = 32;
    let layer_norm: LayerNorm<Fp> = LayerNorm::new(dim);

    let input = vec![vec![Fp(1.0); dim]; 3];
    let output = layer_norm.forward(&input);

    assert_eq!(output.len(), input.len());
    assert_eq!(output[0].len(), dim);
}

#[test]
fn test_layer_norm_backward() {
    let dim = 32;
    let mut layer_norm: LayerNorm<Fp> = LayerNorm::new(dim);

    let input = vec![vec![Fp(1.0); dim]; 3];
    let _output = layer_norm.forward(&input);

    let grad_output = vec![vec![Fp(1.0); dim]; 3];
    let grad_input = layer_norm.backward(&grad_output, &input);

    assert_eq!(grad_input.len(), input.len());
    assert_eq!(grad_input[0].len(), dim);
}

#[test]
fn test_layer_norm_zero_mean_unit_variance() {
    // Before scale and shift (scale one, shift zero, as constructed), a
    // normalized non-degenerate row has mean about zero and variance
    // about one.
    let dim = 8;
    let layer_norm: LayerNorm<Fp> = LayerNorm::new(dim);
    let input = vec![vec![
        Fp(1.0),
        Fp(-2.0),
        Fp(3.5),
        Fp(0.25),
        Fp(10.0),
        Fp(-7.0),
        Fp(2.0),
        Fp(0.0),
    ]];
    let output = layer_norm.forward(&input);
    let row: Vec<f64> = output[0].iter().map(|s| s.0).collect();
    let mean: f64 = row.iter().sum::<f64>() / dim as f64;
    let var: f64 = row.iter().map(|x| (x - mean) * (x - mean)).sum::<f64>() / dim as f64;
    assert!(mean.abs() < 1e-9, "mean {} not near zero", mean);
    assert!((var - 1.0).abs() < 1e-4, "variance {} not near one", var);
}
