use llm_training_rust::model::Model;
use llm_training_rust::optimizer::AdamOptimizer;
use llm_training_rust::config::Config;

fn test_config() -> Config {
    Config {
        vocab_size: 100,
        max_seq_len: 20,
        embedding_dim: 32,
        num_layers: 2,
        num_heads: 4,
        feed_forward_dim: 64,
        dropout_threshold: (0.1 * (u64::MAX as f64)) as u64,
        batch_size: 2,
        num_epochs: 1,
        checkpoint_interval: 10,
    }
}
use llm_training_rust::scalar::Scalar;
use rand::Rng;
use rand::SeedableRng;
use rand::rngs::StdRng;

/// Double-precision scalars for exercising the library.
#[derive(Clone, Copy, Debug, PartialEq)]
struct Fp(f64);

impl Scalar for Fp {
    fn zero() -> Self {
        Fp(0.0)
    }
    fn one() -> Self {
        Fp(1.0)
    }
    fn add(self, other: Self) -> Self {
        Fp(self.0 + other.0)
    }
    fn sub(self, other: Self) -> Self {
        Fp(self.0 - other.0)
    }
    fn mul(self, other: Self) -> Self {
        Fp(self.0 * other.0)
    }
    fn div(self, other: Self) -> Self {
        Fp(self.0 / other.0)
    }
    fn neg(self) -> Self {
        Fp(-self.0)
    }
    fn sqrt(self) -> Self {
        Fp(self.0.sqrt())
    }
    fn exp(self) -> Self {
        Fp(self.0.exp())
    }
    fn ln(self) -> Self {
        Fp(self.0.ln())
    }
    fn tanh(self) -> Self {
        Fp(self.0.tanh())
    }
    fn sin(self) -> Self {
        Fp(self.0.sin())
    }
    fn cos(self) -> Self {
        Fp(self.0.cos())
    }
    fn powi(self, e: u64) -> Self {
        Fp(self.0.powi(e as i32))
    }
    fn powf(self, e: Self) -> Self {
        Fp(self.0.powf(e.0))
    }
    fn pi() -> Self {
        Fp(std::f64::consts::PI)
    }
    fn lt(self, other: Self) -> bool {
        self.0 < other.0
    }
    fn from_usize(n: usize) -> Self {
        Fp(n as f64)
    }
    fn sample_init(rng: &mut StdRng) -> Self {
        // Rejection-sampled truncated normal: Box-Muller draws, redrawn
        // until they land within two standard deviations.
        loop {
            let u: f64 = rng.gen::<f64>().max(1e-12);
            let v: f64 = rng.gen();
            let z = (-2.0 * u.ln()).sqrt() * (2.0 * std::f64::consts::PI * v).cos();
            if (-2.0..=2.0).contains(&z) {
                return Fp(z);
            }
        }
    }
    fn sample_unit(rng: &mut StdRng) -> Self {
        Fp(rng.gen::<f64>())
    }
}


#[test]
fn test_optimizer_step() {
    let config = test_config();
    let mut rng = StdRng::seed_from_u64(4);
    let mut model: Model<Fp> = Model::new(&config, &mut rng);
    let mut optimizer: AdamOptimizer<Fp> = AdamOptimizer::new(Fp(0.001));

    // Perform a forward pass and backward pass to compute gradients
    let input = vec![vec![1, 2, 3, 4], vec![5, 6, 7, 8]];
    let target = vec![vec![2, 3, 4, 5], vec![6, 7, 8, 9]];
    let (logits, _) = model.forward(&input, Some(&target), &mut rng);
    model.backward(&logits, &input, &target);

    // Perform an optimizer step
    let before = model.export_params();
    optimizer.step(&mut model);
    let after = model.export_params();

    // Check if the model parameters are updated
    assert_eq!(before.len(), after.len());
    let moved = before
        .iter()
        .zip(after.iter())
        .any(|(b, a)| b.iter().zip(a.iter()).any(|(x, y)| x.0 != y.0));
    assert!(moved, "a step against nonzero gradients must move parameters");
}

#[test]
fn test_optimizer_zero_gradient_steps_leave_parameters() {
    // With gradient buffers still at zero, the moments stay at zero and
    // two consecutive steps leave every parameter exactly unchanged: only
    // the bias-correction denominators move.
    let config = test_config();
    let mut rng = StdRng::seed_from_u64(8);
    let mut model: Model<Fp> = Model::new(&config, &mut rng);
    let mut optimizer: AdamOptimizer<Fp> = AdamOptimizer::new(Fp(0.001));

    let before = model.export_params();
    optimizer.step(&mut model);
    optimizer.step(&mut model);
    let after = model.export_params();

    assert_eq!(before.len(), after.len());
    for (b, a) in before.iter().zip(after.iter()) {
        assert_eq!(b.len(), a.len());
        for (x, y) in b.iter().zip(a.iter()) {
            assert_eq!(x.0, y.0, "zero gradients must not drift parameters");
        }
    }
}

#[test]
fn test_checkpoint_round_trip() {
    // Exported parameters import back into an equivalent model.
    let config = test_config();
    let mut rng = StdRng::seed_from_u64(12);
    let mut model: Model<Fp> = Model::new(&config, &mut rng);
    let saved = model.export_params();

    let mut other: Model<Fp> = Model::new(&config, &mut rng);
    other.import_params(&saved);
    let restored = other.export_params();

    assert_eq!(saved.len(), restored.len());
    for (s, r) in saved.iter().zip(restored.iter()) {
        assert_eq!(s, r);
    }
}
