use llm_training_rust::feed_forward::FeedForward;
use llm_training_rust::config::Config;

fn test_config() -> Config {
    Config {
        vocab_size: 100,
        max_seq_len: 20,
        embedding_dim: 32,
        num_layers: 2,
        num_heads: 4,
        feed_forward_dim: 64,
        dropout_threshold: (0.1 * (u64::MAX as f64)) as u64,
        batch_size: 2,
        num_epochs: 1,
        checkpoint_interval: 10,
    }
}
use llm_training_rust::scalar::Scalar;
use rand::Rng;
use rand::SeedableRng;
use rand::rngs::StdRng;

/// Double-precision scalars for exercising the library.
#[derive(Clone, Copy, Debug, PartialEq)]
struct Fp(f64);

impl Scalar for Fp {
    fn zero() -> Self {
        Fp(0.0)
    }
    fn one() -> Self {
        Fp(1.0)
    }
    fn add(self, other: Self) -> Self {
        Fp(self.0 + other.0)
    }
    fn sub(self, other: Self) -> Self {
        Fp(self.0 - other.0)
    }
    fn mul(self, other: Self) -> Self {
        Fp(self.0 * other.0)
    }
    fn div(self, other: Self) -> Self {
        Fp(self.0 / other.0)
    }
    fn neg(self) -> Self {
        Fp(-self.0)
    }
    fn sqrt(self) -> Self {
        Fp(self.0.sqrt())
    }
    fn exp(self) -> Self {
        Fp(self.0.exp())
    }
    fn ln(self) -> Self {
        Fp(self.0.ln())
    }
    fn tanh(self) -> Self {
        Fp(self.0.tanh())
    }
    fn sin(self) -> Self {
        Fp(self.0.sin())
    }
    fn cos(self) -> Self {
        Fp(self.0.cos())
    }
    fn powi(self, e: u64) -> Self {
        Fp(self.0.powi(e as i32))
    }
    fn powf(self, e: Self) -> Self {
        Fp(self.0.powf(e.0))
    }
    fn pi() -> Self {
        Fp(std::f64::consts::PI)
    }
    fn lt(self, other: Self) -> bool {
        self.0 < other.0
    }
    fn from_usize(n: usize) -> Self {
        Fp(n as f64)
    }
    fn sample_init(rng: &mut StdRng) -> Self {
        // Rejection-sampled truncated normal: Box-Muller draws, redrawn
        // until they land within two standard deviations.
        loop {
            let u: f64 = rng.gen::<f64>().max(1e-12);
            let v: f64 = rng.gen();
            let z = (-2.0 * u.ln()).sqrt() * (2.0 * std::f64::consts::PI * v).cos();
            if (-2.0..=2.0).contains(&z) {
                return Fp(z);
            }
        }
    }
    fn sample_unit(rng: &mut StdRng) -> Self {
        Fp(rng.gen::<f64>())
    }
}

#[test]
fn test_feed_forward_forward() {
    let config = test_config();
    let mut rng = StdRng::seed_from_u64(3);
    let mut feed_forward: FeedForward<Fp> = FeedForward::new(&config, &mut rng);

    let input = vec![vec![Fp(1.0); config.embedding_dim]; config.max_seq_len];
    let output = feed_forward.forward(&input, &mut rng);

    assert_eq!(output.len(), config.max_seq_len);
    assert_eq!(output[0].len(), config.embedding_dim);
}

#[test]
fn test_feed_forward_backward() {
    let config = test_config();
    let mut rng = StdRng::seed_from_u64(3);
    let mut feed_forward: FeedForward<Fp> = FeedForward::new(&config, &mut rng);

    let input = vec![vec![Fp(1.0); config.embedding_dim]; config.max_seq_len];
    let _output = feed_forward.forward(&input, &mut rng);

    let grad_output = vec![vec![Fp(1.0); config.embedding_dim]; config.max_seq_len];
    let grad_input = feed_forward.backward(&grad_output);

    assert_eq!(grad_input.len(), config.max_seq_len);
    assert_eq!(grad_input[0].len(), config.embedding_dim);
}
