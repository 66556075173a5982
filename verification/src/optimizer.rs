use vstd::prelude::*;
use crate::model::Model;
use crate::scalar::Scalar;
use crate::tensor::views;
use crate::tensor::zeros_like;

verus! {

/// An Adam-style parameter update over the model's flattened
/// parameter/gradient pairs.
///
/// The optimizer owns one first-moment and one second-moment buffer per
/// parameter buffer, sized lazily on the first step from the parameter
/// shapes and kept across steps. Each step consumes the (parameter,
/// gradient) pairs in the model's fixed traversal order - the same order
/// in which the backward pass filled the gradients, which
/// `Model::lemma_aligned` guarantees is consistent - and the optimizer is
/// the sole writer of the parameters.
pub struct AdamOptimizer<S> {
    pub learning_rate: S,
    pub beta1: S,
    pub beta2: S,
    pub epsilon: S,
    pub m: Vec<Vec<S>>,
    pub v: Vec<Vec<S>>,
    pub t: u64,
}

impl<S: Scalar> AdamOptimizer<S> {
    /// The moment buffers are shaped exactly like the given parameter
    /// list: one first-moment and one second-moment buffer per parameter
    /// buffer, each as wide as its parameter.
    pub open spec fn moments_sized_to(&self, params: Seq<Seq<S>>) -> bool {
        &&& self.m@.len() == params.len()
        &&& self.v@.len() == params.len()
        &&& forall|k: int| 0 <= k < params.len() ==> (#[trigger] self.m@[k])@.len()
            == params[k].len() && self.v@[k]@.len() == params[k].len()
    }

    /// Either not yet initialized, or shaped exactly like the given
    /// parameter list.
    pub open spec fn moments_wf_for(&self, params: Seq<Seq<S>>) -> bool {
        ||| (self.m@.len() == 0 && self.v@.len() == 0)
        ||| self.moments_sized_to(params)
    }

    /// Decay rates nine tenths and nine hundred ninety-nine thousandths,
    /// the denominator guard at one part in a hundred million, moments
    /// empty until the first step.
    pub fn new(learning_rate: S) -> (r: AdamOptimizer<S>)
        ensures
            r.learning_rate == learning_rate,
            r.t == 0,
            r.m@.len() == 0,
            r.v@.len() == 0,
    {
        AdamOptimizer {
            learning_rate,
            beta1: S::from_usize(9).div(S::from_usize(10)),
            beta2: S::from_usize(999).div(S::from_usize(1000)),
            epsilon: S::one().div(S::from_usize(100000000)),
            m: Vec::new(),
            v: Vec::new(),
            t: 0,
        }
    }

    /// One update: sizes the moment buffers on first use, advances the
    /// step counter, folds every gradient into the biased moment
    /// estimates, bias-corrects them, and moves every parameter against
    /// its corrected moment. The model's parameter shapes, and its
    /// gradient buffers, are untouched; only the parameter values change.
    pub fn step(&mut self, model: &mut Model<S>)
        requires
            old(model).wf(),
            old(self).moments_wf_for(old(model).params()),
            old(self).t < u64::MAX,
        ensures
            final(model).wf(),
            final(model).vocab_size() == old(model).vocab_size(),
            final(model).embedding_dim() == old(model).embedding_dim(),
            final(model).max_seq_len() == old(model).max_seq_len(),
            final(model).grads() == old(model).grads(),
            final(model).params().len() == old(model).params().len(),
            forall|k: int| 0 <= k < old(model).params().len()
                ==> (#[trigger] final(model).params()[k]).len() == old(model).params()[k].len(),
            final(self).moments_sized_to(final(model).params()),
            final(self).t == old(self).t + 1,
            final(self).learning_rate == old(self).learning_rate,
            final(self).beta1 == old(self).beta1,
            final(self).beta2 == old(self).beta2,
            final(self).epsilon == old(self).epsilon,
    {
        let params = model.export_params();
        let grads = model.export_grads();
        proof {
            model.lemma_aligned();
            assert forall|k: int| 0 <= k < params@.len() implies (#[trigger] grads@[k])@.len()
                == params@[k]@.len() by {
                assert(model.params()[k].len() == model.grads()[k].len());
                assert(views(params@)[k] == params@[k]@);
                assert(views(grads@)[k] == grads@[k]@);
            }
        }
        if self.m.len() == 0 {
            self.m = zeros_like(&params);
            self.v = zeros_like(&params);
        }
        proof {
            assert forall|k: int| 0 <= k < params@.len() implies (#[trigger] self.m@[k])@.len()
                == params@[k]@.len() && self.v@[k]@.len() == params@[k]@.len() by {
                assert(views(params@)[k] == params@[k]@);
            }
        }
        self.t = self.t + 1;
        let one = S::one();
        let c1 = one.sub(self.beta1.powi(self.t));
        let c2 = one.sub(self.beta2.powi(self.t));
        let n = params.len();
        let mut new_params: Vec<Vec<S>> = Vec::new();
        let mut new_m: Vec<Vec<S>> = Vec::new();
        let mut new_v: Vec<Vec<S>> = Vec::new();
        let mut i: usize = 0;
        while i < n
            invariant
                n == params@.len(),
                grads@.len() == n,
                self.m@.len() == n,
                self.v@.len() == n,
                forall|k: int| 0 <= k < n ==> (#[trigger] grads@[k])@.len() == params@[k]@.len(),
                forall|k: int| 0 <= k < n ==> (#[trigger] self.m@[k])@.len() == params@[k]@.len()
                    && self.v@[k]@.len() == params@[k]@.len(),
                0 <= i <= n,
                new_params@.len() == i,
                new_m@.len() == i,
                new_v@.len() == i,
                forall|k: int| 0 <= k < i ==> (#[trigger] new_params@[k])@.len()
                    == params@[k]@.len(),
                forall|k: int| 0 <= k < i ==> (#[trigger] new_m@[k])@.len() == params@[k]@.len(),
                forall|k: int| 0 <= k < i ==> (#[trigger] new_v@[k])@.len() == params@[k]@.len(),
            decreases n - i,
        {
            let width = params[i].len();
            proof {
                assert(self.m@[i as int]@.len() == params@[i as int]@.len() && self.v@[
                    i as int
                ]@.len() == params@[i as int]@.len());
            }
            let mut prow: Vec<S> = Vec::new();
            let mut mrow: Vec<S> = Vec::new();
            let mut vrow: Vec<S> = Vec::new();
            let mut j: usize = 0;
            while j < width
                invariant
                    i < params@.len(),
                    width == params@[i as int]@.len(),
                    grads@.len() == params@.len(),
                    self.m@.len() == params@.len(),
                    self.v@.len() == params@.len(),
                    grads@[i as int]@.len() == width,
                    self.m@[i as int]@.len() == width,
                    self.v@[i as int]@.len() == width,
                    0 <= j <= width,
                    prow@.len() == j,
                    mrow@.len() == j,
                    vrow@.len() == j,
                decreases width - j,
            {
                let p = params[i][j];
                let g = grads[i][j];
                let m1 = self.beta1.mul(self.m[i][j]).add(one.sub(self.beta1).mul(g));
                let v1 = self.beta2.mul(self.v[i][j]).add(one.sub(self.beta2).mul(g.mul(g)));
                let m_hat = m1.div(c1);
                let v_hat = v1.div(c2);
                prow.push(p.sub(self.learning_rate.mul(m_hat).div(v_hat.sqrt().add(self.epsilon))));
                mrow.push(m1);
                vrow.push(v1);
                j = j + 1;
            }
            new_params.push(prow);
            new_m.push(mrow);
            new_v.push(vrow);
            i = i + 1;
        }
        proof {
            assert forall|k: int| 0 <= k < model.params().len() implies (#[trigger] new_params@[
                k
            ])@.len() == model.params()[k].len() by {
                assert(views(params@)[k] == params@[k]@);
            }
        }
        model.import_params(&new_params);
        self.m = new_m;
        self.v = new_v;
        proof {
            assert forall|k: int| 0 <= k < model.params().len() implies (#[trigger] self.m@[
                k
            ])@.len() == model.params()[k].len() && self.v@[k]@.len() == model.params()[k].len() by {
                assert(model.params()[k] == views(new_params@)[k]);
                assert(views(new_params@)[k] == new_params@[k]@);
            }
        }
    }
}

} // verus!
