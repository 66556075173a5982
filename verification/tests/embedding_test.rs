use llm_training_rust::embedding::Embedding;
use llm_training_rust::config::Config;

fn test_config() -> Config {
    Config {
        vocab_size: 100,
        max_seq_len: 20,
        embedding_dim: 32,
        num_layers: 2,
        num_heads: 4,
        feed_forward_dim: 64,
        dropout_threshold: (0.1 * (u64::MAX as f64)) as u64,
        batch_size: 2,
        num_epochs: 1,
        checkpoint_interval: 10,
    }
}
use llm_training_rust::scalar::Scalar;
use rand::Rng;
use rand::SeedableRng;
use rand::rngs::StdRng;

/// Double-precision scalars for exercising the library.
#[derive(Clone, Copy, Debug, PartialEq)]
struct Fp(f64);

impl Scalar for Fp {
    fn zero() -> Self {
        Fp(0.0)
    }
    fn one() -> Self {
        Fp(1.0)
    }
    fn add(self, other: Self) -> Self {
        Fp(self.0 + other.0)
    }
    fn sub(self, other: Self) -> Self {
        Fp(self.0 - other.0)
    }
    fn mul(self, other: Self) -> Self {
        Fp(self.0 * other.0)
    }
    fn div(self, other: Self) -> Self {
        Fp(self.0 / other.0)
    }
    fn neg(self) -> Self {
        Fp(-self.0)
    }
    fn sqrt(self) -> Self {
        Fp(self.0.sqrt())
    }
    fn exp(self) -> Self {
        Fp(self.0.exp())
    }
    fn ln(self) -> Self {
        Fp(self.0.ln())
    }
    fn tanh(self) -> Self {
        Fp(self.0.tanh())
    }
    fn sin(self) -> Self {
        Fp(self.0.sin())
    }
    fn cos(self) -> Self {
        Fp(self.0.cos())
    }
    fn powi(self, e: u64) -> Self {
        Fp(self.0.powi(e as i32))
    }
    fn powf(self, e: Self) -> Self {
        Fp(self.0.powf(e.0))
    }
    fn pi() -> Self {
        Fp(std::f64::consts::PI)
    }
    fn lt(self, other: Self) -> bool {
        self.0 < other.0
    }
    fn from_usize(n: usize) -> Self {
        Fp(n as f64)
    }
    fn sample_init(rng: &mut StdRng) -> Self {
        // Rejection-sampled truncated normal: Box-Muller draws, redrawn
        // until they land within two standard deviations.
        loop {
            let u: f64 = rng.gen::<f64>().max(1e-12);
            let v: f64 = rng.gen();
            let z = (-2.0 * u.ln()).sqrt() * (2.0 * std::f64::consts::PI * v).cos();
            if (-2.0..=2.0).contains(&z) {
                return Fp(z);
            }
        }
    }
    fn sample_unit(rng: &mut StdRng) -> Self {
        Fp(rng.gen::<f64>())
    }
}

#[test]
fn test_embedding_forward() {
    let config = test_config();
    let mut rng = StdRng::seed_from_u64(5);
    let embedding: Embedding<Fp> = Embedding::new(config.vocab_size, config.embedding_dim, &mut rng);

    let input = vec![1, 2, 3, 4];
    let output = embedding.forward(&input);

    assert_eq!(output.len(), input.len());
    assert_eq!(output[0].len(), config.embedding_dim);
}

#[test]
fn test_embedding_backward() {
    let config = test_config();
    let mut rng = StdRng::seed_from_u64(5);
    let mut embedding: Embedding<Fp> =
        Embedding::new(config.vocab_size, config.embedding_dim, &mut rng);

    let input = vec![1, 2, 3, 4];
    let _output = embedding.forward(&input);

    let grad_output = vec![vec![Fp(1.0); config.embedding_dim]; input.len()];
    embedding.backward(&grad_output, &input);
}

#[test]
fn test_embedding_gather_and_accumulate() {
    // Forward is an exact row gather, and a repeated id sums both of its
    // gradient contributions into the same gradient row.
    let mut rng = StdRng::seed_from_u64(5);
    let mut embedding: Embedding<Fp> = Embedding::new(4, 2, &mut rng);
    let input = vec![3, 1, 3];
    let output = embedding.forward(&input);
    assert_eq!(output[0], embedding.embedding_matrix[3]);
    assert_eq!(output[1], embedding.embedding_matrix[1]);
    assert_eq!(output[2], embedding.embedding_matrix[3]);

    let grad_output = vec![
        vec![Fp(1.0), Fp(2.0)],
        vec![Fp(10.0), Fp(20.0)],
        vec![Fp(100.0), Fp(200.0)],
    ];
    embedding.backward(&grad_output, &input);
    assert_eq!(embedding.grad_matrix[3], vec![Fp(101.0), Fp(202.0)]);
    assert_eq!(embedding.grad_matrix[1], vec![Fp(10.0), Fp(20.0)]);
    assert_eq!(embedding.grad_matrix[0], vec![Fp(0.0), Fp(0.0)]);
}
