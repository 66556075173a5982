use llm_training_rust::model::Model;
use llm_training_rust::tokenizer::Tokenizer;
use llm_training_rust::config::Config;

fn test_config() -> Config {
    Config {
        vocab_size: 100,
        max_seq_len: 20,
        embedding_dim: 32,
        num_layers: 2,
        num_heads: 4,
        feed_forward_dim: 64,
        dropout_threshold: (0.1 * (u64::MAX as f64)) as u64,
        batch_size: 2,
        num_epochs: 1,
        checkpoint_interval: 10,
    }
}
use llm_training_rust::scalar::Scalar;
use rand::Rng;
use rand::SeedableRng;
use rand::rngs::StdRng;

/// Double-precision scalars for exercising the library.
#[derive(Clone, Copy, Debug, PartialEq)]
struct Fp(f64);

impl Scalar for Fp {
    fn zero() -> Self {
        Fp(0.0)
    }
    fn one() -> Self {
        Fp(1.0)
    }
    fn add(self, other: Self) -> Self {
        Fp(self.0 + other.0)
    }
    fn sub(self, other: Self) -> Self {
        Fp(self.0 - other.0)
    }
    fn mul(self, other: Self) -> Self {
        Fp(self.0 * other.0)
    }
    fn div(self, other: Self) -> Self {
        Fp(self.0 / other.0)
    }
    fn neg(self) -> Self {
        Fp(-self.0)
    }
    fn sqrt(self) -> Self {
        Fp(self.0.sqrt())
    }
    fn exp(self) -> Self {
        Fp(self.0.exp())
    }
    fn ln(self) -> Self {
        Fp(self.0.ln())
    }
    fn tanh(self) -> Self {
        Fp(self.0.tanh())
    }
    fn sin(self) -> Self {
        Fp(self.0.sin())
    }
    fn cos(self) -> Self {
        Fp(self.0.cos())
    }
    fn powi(self, e: u64) -> Self {
        Fp(self.0.powi(e as i32))
    }
    fn powf(self, e: Self) -> Self {
        Fp(self.0.powf(e.0))
    }
    fn pi() -> Self {
        Fp(std::f64::consts::PI)
    }
    fn lt(self, other: Self) -> bool {
        self.0 < other.0
    }
    fn from_usize(n: usize) -> Self {
        Fp(n as f64)
    }
    fn sample_init(rng: &mut StdRng) -> Self {
        // Rejection-sampled truncated normal: Box-Muller draws, redrawn
        // until they land within two standard deviations.
        loop {
            let u: f64 = rng.gen::<f64>().max(1e-12);
            let v: f64 = rng.gen();
            let z = (-2.0 * u.ln()).sqrt() * (2.0 * std::f64::consts::PI * v).cos();
            if (-2.0..=2.0).contains(&z) {
                return Fp(z);
            }
        }
    }
    fn sample_unit(rng: &mut StdRng) -> Self {
        Fp(rng.gen::<f64>())
    }
}


#[test]
fn test_model_forward() {
    let config = test_config();
    let mut rng = StdRng::seed_from_u64(1);
    let mut model: Model<Fp> = Model::new(&config, &mut rng);

    let input = vec![vec![1, 2, 3, 4], vec![5, 6, 7, 8]];
    let target = vec![vec![2, 3, 4, 5], vec![6, 7, 8, 9]];

    let (logits, loss) = model.forward(&input, Some(&target), &mut rng);

    assert_eq!(logits.len(), 2);
    assert_eq!(logits[0].len(), 4);
    assert_eq!(logits[0][0].len(), config.vocab_size);

    assert!(loss.is_some());
}

#[test]
fn test_model_backward() {
    let config = test_config();
    let mut rng = StdRng::seed_from_u64(1);
    let mut model: Model<Fp> = Model::new(&config, &mut rng);

    let input = vec![vec![1, 2, 3, 4], vec![5, 6, 7, 8]];
    let target = vec![vec![2, 3, 4, 5], vec![6, 7, 8, 9]];

    let (logits, _) = model.forward(&input, Some(&target), &mut rng);
    model.backward(&logits, &input, &target);
}

#[test]
fn test_model_end_to_end() {
    // The full scenario: logits shaped per batch and position at
    // vocabulary width, a defined non-negative loss, and every gradient
    // buffer populated by one backward pass.
    let config = test_config();
    let mut rng = StdRng::seed_from_u64(2);
    let mut model: Model<Fp> = Model::new(&config, &mut rng);

    let input = vec![vec![1, 2, 3, 4], vec![5, 6, 7, 8]];
    let target = vec![vec![2, 3, 4, 5], vec![6, 7, 8, 9]];

    let (logits, loss) = model.forward(&input, Some(&target), &mut rng);
    assert_eq!(logits.len(), 2);
    for grid in &logits {
        assert_eq!(grid.len(), 4);
        for row in grid {
            assert_eq!(row.len(), 100);
            for s in row {
                assert!(s.0.is_finite());
            }
        }
    }
    let loss = loss.unwrap().0;
    assert!(loss.is_finite(), "loss must be a defined number");
    assert!(loss >= 0.0, "cross-entropy loss is non-negative");

    model.backward(&logits, &input, &target);
    let grads = model.export_grads();
    let params = model.export_params();
    assert_eq!(grads.len(), params.len());
    for (g, p) in grads.iter().zip(params.iter()) {
        assert_eq!(g.len(), p.len());
    }
    // At least one gradient buffer picked up a nonzero entry.
    let touched = grads
        .iter()
        .any(|buf| buf.iter().any(|s| s.0 != 0.0));
    assert!(touched, "backward must populate the gradient buffers");
}

#[test]
fn test_generation_terminates_within_cap() {
    let config = test_config();
    let mut rng = StdRng::seed_from_u64(9);
    let mut model: Model<Fp> = Model::new(&config, &mut rng);
    let tokenizer = Tokenizer::new(vec![
        "to".to_string(),
        "be".to_string(),
        "or".to_string(),
        "not".to_string(),
    ]);
    // The sampling loop stops at the end-of-sequence id or after
    // max_seq_len draws; either way it returns, and the text decodes at
    // most max_seq_len drawn words.
    let text = model.generate("to be or not to be", &tokenizer, &config, &mut rng);
    let words: Vec<&str> = text.split_whitespace().collect();
    assert!(words.len() <= config.max_seq_len);
}
