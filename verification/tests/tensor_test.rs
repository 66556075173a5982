use llm_training_rust::tensor::softmax;
use llm_training_rust::dropout::Dropout;
use llm_training_rust::scalar::Scalar;
use rand::Rng;
use rand::SeedableRng;
use rand::rngs::StdRng;

/// Double-precision scalars for exercising the library.
#[derive(Clone, Copy, Debug, PartialEq)]
struct Fp(f64);

impl Scalar for Fp {
    fn zero() -> Self {
        Fp(0.0)
    }
    fn one() -> Self {
        Fp(1.0)
    }
    fn add(self, other: Self) -> Self {
        Fp(self.0 + other.0)
    }
    fn sub(self, other: Self) -> Self {
        Fp(self.0 - other.0)
    }
    fn mul(self, other: Self) -> Self {
        Fp(self.0 * other.0)
    }
    fn div(self, other: Self) -> Self {
        Fp(self.0 / other.0)
    }
    fn neg(self) -> Self {
        Fp(-self.0)
    }
    fn sqrt(self) -> Self {
        Fp(self.0.sqrt())
    }
    fn exp(self) -> Self {
        Fp(self.0.exp())
    }
    fn ln(self) -> Self {
        Fp(self.0.ln())
    }
    fn tanh(self) -> Self {
        Fp(self.0.tanh())
    }
    fn sin(self) -> Self {
        Fp(self.0.sin())
    }
    fn cos(self) -> Self {
        Fp(self.0.cos())
    }
    fn powi(self, e: u64) -> Self {
        Fp(self.0.powi(e as i32))
    }
    fn powf(self, e: Self) -> Self {
        Fp(self.0.powf(e.0))
    }
    fn pi() -> Self {
        Fp(std::f64::consts::PI)
    }
    fn lt(self, other: Self) -> bool {
        self.0 < other.0
    }
    fn from_usize(n: usize) -> Self {
        Fp(n as f64)
    }
    fn sample_init(rng: &mut StdRng) -> Self {
        // Rejection-sampled truncated normal: Box-Muller draws, redrawn
        // until they land within two standard deviations.
        loop {
            let u: f64 = rng.gen::<f64>().max(1e-12);
            let v: f64 = rng.gen();
            let z = (-2.0 * u.ln()).sqrt() * (2.0 * std::f64::consts::PI * v).cos();
            if (-2.0..=2.0).contains(&z) {
                return Fp(z);
            }
        }
    }
    fn sample_unit(rng: &mut StdRng) -> Self {
        Fp(rng.gen::<f64>())
    }
}


#[test]
fn test_softmax_rows_sum_to_one() {
    let rows: Vec<Vec<f64>> = vec![
        vec![0.0, 0.0],
        vec![1.0, 2.0, 3.0, 4.0],
        vec![-5.5, 0.25, 7.75],
        vec![42.0],
    ];
    for row in rows {
        let input: Vec<Fp> = row.iter().map(|&x| Fp(x)).collect();
        let out = softmax(&input);
        assert_eq!(out.len(), input.len());
        let sum: f64 = out.iter().map(|s| s.0).sum();
        assert!((sum - 1.0).abs() < 1e-9, "softmax sum {} not 1", sum);
        for s in &out {
            assert!(s.0.is_finite());
        }
    }
}

#[test]
fn test_softmax_stable_under_dominant_value() {
    // A huge dominant score would overflow a naive exponentiation; the
    // max-subtracted form stays finite and sums to one.
    let input = vec![Fp(1000.0), Fp(1.0), Fp(2.0)];
    let out = softmax(&input);
    let sum: f64 = out.iter().map(|s| s.0).sum();
    assert!((sum - 1.0).abs() < 1e-9);
    assert!(out[0].0 > 0.999);
}

#[test]
fn test_softmax_uniform_row_exact() {
    let out = softmax(&vec![Fp(0.0), Fp(0.0)]);
    assert_eq!(out, vec![Fp(0.5), Fp(0.5)]);
}

#[test]
fn test_dropout_threshold_zero_passes_everything() {
    let mut rng = StdRng::seed_from_u64(13);
    let mut dropout: Dropout<Fp> = Dropout::new(0);
    let input = vec![vec![Fp(1.5), Fp(-2.5)], vec![Fp(3.0), Fp(0.0)]];
    let out = dropout.forward(&input, &mut rng);
    assert_eq!(out, input);
    let grad = vec![vec![Fp(7.0), Fp(8.0)], vec![Fp(9.0), Fp(10.0)]];
    let gi = dropout.backward(&grad);
    assert_eq!(gi, grad);
}

#[test]
fn test_dropout_high_threshold_zeroes_cells() {
    // With the threshold at the top of the range, essentially every fresh
    // 64-bit draw falls below it, so the mask drops the cells and the
    // output differs from the input.
    let mut rng = StdRng::seed_from_u64(13);
    let mut dropout: Dropout<Fp> = Dropout::new(u64::MAX);
    let input = vec![vec![Fp(1.0); 16]; 4];
    let out = dropout.forward(&input, &mut rng);
    let zeroed = out
        .iter()
        .flat_map(|r| r.iter())
        .filter(|s| s.0 == 0.0)
        .count();
    assert!(zeroed >= 60, "only {} of 64 cells were dropped", zeroed);
    // The cached mask and the output agree cell by cell.
    for (orow, mrow) in out.iter().zip(dropout.mask.iter()) {
        for (o, &m) in orow.iter().zip(mrow.iter()) {
            assert_eq!(o.0 == 0.0, m);
        }
    }
}
