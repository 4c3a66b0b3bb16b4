//! Fixed-topology feed-forward neural network driving each cell.
//!
//! Weights, biases, inputs and activations are fixed-point values in
//! thousandths (see `fixed`).  The forward pass, mutation and action
//! selection are specified exactly over the integer arithmetic.

use vstd::prelude::*;

verus! {

use crate::fixed::{div_floor, clamp_fp, SCALE};
use crate::rng::rand_range;

/// Every weight and bias stays within `[-WEIGHT_LIMIT, WEIGHT_LIMIT]`
/// (two whole units) after mutation.
pub const WEIGHT_LIMIT: i64 = 2000;

/// Fresh networks draw weights uniformly from `[-WEIGHT_INIT, WEIGHT_INIT)`
/// (one whole unit).
pub const WEIGHT_INIT: i64 = 1000;

/// A mutated weight moves by a uniform delta in `[-MUTATE_STEP, MUTATE_STEP]`.
pub const MUTATE_STEP: i64 = 100;

/// Hard cap on layer widths, so every sum in the forward pass fits in `i64`.
pub const LAYER_LIMIT: usize = 4096;

/// Largest value a hidden activation can take under `wf`:
/// `WEIGHT_LIMIT * (LAYER_LIMIT + 1)`.
pub const HIDDEN_VALUE_LIMIT: i64 = 8194000;

/// Largest magnitude of one hidden-to-output term under `wf`:
/// `WEIGHT_LIMIT * HIDDEN_VALUE_LIMIT / SCALE`.
pub const OUTPUT_TERM_LIMIT: i64 = 16388000;

pub struct NeuralNetwork {
    /// Input-to-hidden weights, one row per hidden node.
    pub weights_ih: Vec<Vec<i64>>,
    /// Hidden-layer biases.
    pub bias_h: Vec<i64>,
    /// Hidden-to-output weights, one row per output node.
    pub weights_ho: Vec<Vec<i64>>,
    /// Output-layer biases.
    pub bias_o: Vec<i64>,
    pub input_size: usize,
    pub hidden_size: usize,
    pub output_size: usize,
}

/// Fixed-point dot product of the first `n` entries: each term is
/// `w[k] * x[k]` scaled back down by `SCALE`.
pub open spec fn dot_fp(w: Seq<i64>, x: Seq<i64>, n: int) -> int
    decreases n,
{
    if n <= 0 {
        0
    } else {
        dot_fp(w, x, n - 1) + (w[n - 1] * x[n - 1]) / (SCALE as int)
    }
}

/// Deep equality of two networks: same shape, same weights, same biases.
pub open spec fn nn_eq(a: NeuralNetwork, b: NeuralNetwork) -> bool {
    &&& a.input_size == b.input_size
    &&& a.hidden_size == b.hidden_size
    &&& a.output_size == b.output_size
    &&& a.weights_ih@.len() == b.weights_ih@.len()
    &&& forall|i: int|
        0 <= i < a.weights_ih@.len() ==> #[trigger] a.weights_ih@[i]@ == b.weights_ih@[i]@
    &&& a.bias_h@ == b.bias_h@
    &&& a.weights_ho@.len() == b.weights_ho@.len()
    &&& forall|i: int|
        0 <= i < a.weights_ho@.len() ==> #[trigger] a.weights_ho@[i]@ == b.weights_ho@[i]@
    &&& a.bias_o@ == b.bias_o@
}

/// All weights and biases of the network are zero.
pub open spec fn nn_all_zero(nn: NeuralNetwork) -> bool {
    &&& forall|i: int, j: int|
        0 <= i < nn.weights_ih@.len() && 0 <= j < nn.weights_ih@[i]@.len()
            ==> #[trigger] nn.weights_ih@[i]@[j] == 0
    &&& forall|i: int| 0 <= i < nn.bias_h@.len() ==> #[trigger] nn.bias_h@[i] == 0
    &&& forall|i: int, j: int|
        0 <= i < nn.weights_ho@.len() && 0 <= j < nn.weights_ho@[i]@.len()
            ==> #[trigger] nn.weights_ho@[i]@[j] == 0
    &&& forall|i: int| 0 <= i < nn.bias_o@.len() ==> #[trigger] nn.bias_o@[i] == 0
}

/// `b` has the same shape as `a` and every weight and bias lies within
/// one mutation step of the corresponding entry of `a`.
pub open spec fn nn_step_close(a: NeuralNetwork, b: NeuralNetwork) -> bool {
    &&& a.input_size == b.input_size
    &&& a.hidden_size == b.hidden_size
    &&& a.output_size == b.output_size
    &&& a.weights_ih@.len() == b.weights_ih@.len()
    &&& forall|i: int|
        0 <= i < a.weights_ih@.len() ==> (#[trigger] b.weights_ih@[i]@).len()
            == a.weights_ih@[i]@.len()
    &&& forall|i: int, j: int|
        0 <= i < a.weights_ih@.len() && 0 <= j < a.weights_ih@[i]@.len()
            ==> -MUTATE_STEP <= (#[trigger] b.weights_ih@[i]@[j]) - a.weights_ih@[i]@[j]
            <= MUTATE_STEP
    &&& a.bias_h@.len() == b.bias_h@.len()
    &&& forall|i: int|
        0 <= i < a.bias_h@.len() ==> -MUTATE_STEP <= (#[trigger] b.bias_h@[i]) - a.bias_h@[i]
            <= MUTATE_STEP
    &&& a.weights_ho@.len() == b.weights_ho@.len()
    &&& forall|i: int|
        0 <= i < a.weights_ho@.len() ==> (#[trigger] b.weights_ho@[i]@).len()
            == a.weights_ho@[i]@.len()
    &&& forall|i: int, j: int|
        0 <= i < a.weights_ho@.len() && 0 <= j < a.weights_ho@[i]@.len()
            ==> -MUTATE_STEP <= (#[trigger] b.weights_ho@[i]@[j]) - a.weights_ho@[i]@[j]
            <= MUTATE_STEP
    &&& a.bias_o@.len() == b.bias_o@.len()
    &&& forall|i: int|
        0 <= i < a.bias_o@.len() ==> -MUTATE_STEP <= (#[trigger] b.bias_o@[i]) - a.bias_o@[i]
            <= MUTATE_STEP
}

/// Every weight and bias lies in the initial draw range
/// `[-WEIGHT_INIT, WEIGHT_INIT)`.
pub open spec fn nn_init_range(nn: NeuralNetwork) -> bool {
    &&& forall|i: int, j: int|
        0 <= i < nn.weights_ih@.len() && 0 <= j < nn.weights_ih@[i]@.len()
            ==> -WEIGHT_INIT <= (#[trigger] nn.weights_ih@[i]@[j]) < WEIGHT_INIT
    &&& forall|i: int|
        0 <= i < nn.bias_h@.len() ==> -WEIGHT_INIT <= (#[trigger] nn.bias_h@[i]) < WEIGHT_INIT
    &&& forall|i: int, j: int|
        0 <= i < nn.weights_ho@.len() && 0 <= j < nn.weights_ho@[i]@.len()
            ==> -WEIGHT_INIT <= (#[trigger] nn.weights_ho@[i]@[j]) < WEIGHT_INIT
    &&& forall|i: int|
        0 <= i < nn.bias_o@.len() ==> -WEIGHT_INIT <= (#[trigger] nn.bias_o@[i]) < WEIGHT_INIT
}

impl NeuralNetwork {
    /// Shape and range invariant: consistent layer sizes and every weight
    /// and bias within `[-WEIGHT_LIMIT, WEIGHT_LIMIT]`.
    pub open spec fn wf(self) -> bool {
        &&& 1 <= self.input_size <= LAYER_LIMIT
        &&& 1 <= self.output_size <= LAYER_LIMIT
        &&& self.hidden_size == 2 * (self.input_size + self.output_size)
        &&& self.weights_ih@.len() == self.hidden_size
        &&& forall|i: int|
            0 <= i < self.hidden_size ==> (#[trigger] self.weights_ih@[i]@).len()
                == self.input_size
        &&& forall|i: int, j: int|
            0 <= i < self.hidden_size && 0 <= j < self.input_size
                ==> -WEIGHT_LIMIT <= #[trigger] self.weights_ih@[i]@[j] <= WEIGHT_LIMIT
        &&& self.bias_h@.len() == self.hidden_size
        &&& forall|i: int|
            0 <= i < self.hidden_size
                ==> -WEIGHT_LIMIT <= #[trigger] self.bias_h@[i] <= WEIGHT_LIMIT
        &&& self.weights_ho@.len() == self.output_size
        &&& forall|i: int|
            0 <= i < self.output_size ==> (#[trigger] self.weights_ho@[i]@).len()
                == self.hidden_size
        &&& forall|i: int, j: int|
            0 <= i < self.output_size && 0 <= j < self.hidden_size
                ==> -WEIGHT_LIMIT <= #[trigger] self.weights_ho@[i]@[j] <= WEIGHT_LIMIT
        &&& self.bias_o@.len() == self.output_size
        &&& forall|i: int|
            0 <= i < self.output_size
                ==> -WEIGHT_LIMIT <= #[trigger] self.bias_o@[i] <= WEIGHT_LIMIT
    }

    /// Pre-activation sum of hidden node `i`, then rectified (ReLU).
    pub open spec fn spec_hidden(self, inputs: Seq<i64>, i: int) -> int {
        let s = self.bias_h@[i] + dot_fp(self.weights_ih@[i]@, inputs, self.input_size as int);
        if s < 0 {
            0
        } else {
            s
        }
    }

    /// The hidden layer as a sequence of fixed-point values.
    pub open spec fn spec_hidden_seq(self, inputs: Seq<i64>) -> Seq<i64> {
        Seq::new(self.hidden_size as nat, |i: int| self.spec_hidden(inputs, i) as i64)
    }

    /// Raw score of output node `i` (identity activation).
    pub open spec fn spec_output(self, inputs: Seq<i64>, i: int) -> int {
        self.bias_o@[i] + dot_fp(
            self.weights_ho@[i]@,
            self.spec_hidden_seq(inputs),
            self.hidden_size as int,
        )
    }

    /// Builds a network with the hidden layer fixed at twice the sum of the
    /// input and output widths, and every weight and bias drawn uniformly
    /// from `[-WEIGHT_INIT, WEIGHT_INIT)`.
    pub fn new(input_size: usize, output_size: usize, rng: &mut rand::rngs::StdRng) -> (r:
        NeuralNetwork)
        requires
            1 <= input_size <= LAYER_LIMIT,
            1 <= output_size <= LAYER_LIMIT,
        ensures
            r.wf(),
            r.input_size == input_size,
            r.output_size == output_size,
            r.hidden_size == 2 * (input_size + output_size),
            nn_init_range(r),
    {
        let hidden_size: usize = 2 * (input_size + output_size);
        let weights_ih = random_matrix(hidden_size, input_size, rng);
        let bias_h = random_row(hidden_size, rng);
        let weights_ho = random_matrix(output_size, hidden_size, rng);
        let bias_o = random_row(output_size, rng);
        NeuralNetwork {
            weights_ih,
            bias_h,
            weights_ho,
            bias_o,
            input_size,
            hidden_size,
            output_size,
        }
    }

    /// Forward pass: ReLU hidden layer, identity output layer.  The result
    /// is exactly `spec_output` at every index.
    pub fn forward(&self, inputs: &Vec<i64>) -> (r: Vec<i64>)
        requires
            self.wf(),
            inputs@.len() == self.input_size,
            forall|k: int| 0 <= k < inputs@.len() ==> -SCALE <= #[trigger] inputs@[k] <= SCALE,
        ensures
            r@.len() == self.output_size,
            forall|i: int| 0 <= i < r@.len() ==> r@[i] == self.spec_output(inputs@, i),
    {
        let mut hidden: Vec<i64> = Vec::new();
        let mut i: usize = 0;
        while i < self.hidden_size
            invariant
                self.wf(),
                inputs@.len() == self.input_size,
                forall|k: int| 0 <= k < inputs@.len() ==> -SCALE <= #[trigger] inputs@[k] <= SCALE,
                i <= self.hidden_size,
                hidden@.len() == i,
                forall|k: int| 0 <= k < i ==> hidden@[k] == self.spec_hidden(inputs@, k),
                forall|k: int| 0 <= k < i ==> 0 <= #[trigger] hidden@[k] <= HIDDEN_VALUE_LIMIT,
            decreases self.hidden_size - i,
        {
            let row: &Vec<i64> = &self.weights_ih[i];
            let mut acc: i64 = 0;
            let mut j: usize = 0;
            while j < self.input_size
                invariant
                    self.wf(),
                    inputs@.len() == self.input_size,
                    forall|k: int|
                        0 <= k < inputs@.len() ==> -SCALE <= #[trigger] inputs@[k] <= SCALE,
                    i < self.hidden_size,
                    row@ == self.weights_ih@[i as int]@,
                    j <= self.input_size,
                    acc == dot_fp(row@, inputs@, j as int),
                    -2000 * j <= acc <= 2000 * j,
                decreases self.input_size - j,
            {
                proof {
                    lemma_layer1_term_bound(row@[j as int], inputs@[j as int]);
                }
                let t: i64 = row[j] * inputs[j];
                let term: i64 = div_floor(t, SCALE);
                acc = acc + term;
                j = j + 1;
            }
            let s: i64 = self.bias_h[i] + acc;
            let h: i64 = if s < 0 {
                0
            } else {
                s
            };
            hidden.push(h);
            i = i + 1;
        }
        proof {
            assert forall|k: int| 0 <= k < self.hidden_size implies self.spec_hidden_seq(
                inputs@,
            )[k] == hidden@[k] by {
                assert(hidden@[k] == self.spec_hidden(inputs@, k));
            }
        }
        let mut outputs: Vec<i64> = Vec::new();
        let mut i: usize = 0;
        while i < self.output_size
            invariant
                self.wf(),
                inputs@.len() == self.input_size,
                hidden@.len() == self.hidden_size,
                forall|k: int| 0 <= k < hidden@.len() ==> 0 <= #[trigger] hidden@[k]
                    <= HIDDEN_VALUE_LIMIT,
                forall|k: int|
                    0 <= k < self.hidden_size ==> self.spec_hidden_seq(inputs@)[k]
                        == #[trigger] hidden@[k],
                i <= self.output_size,
                outputs@.len() == i,
                forall|k: int| 0 <= k < i ==> outputs@[k] == self.spec_output(inputs@, k),
            decreases self.output_size - i,
        {
            let row: &Vec<i64> = &self.weights_ho[i];
            let mut acc: i64 = 0;
            let mut j: usize = 0;
            while j < self.hidden_size
                invariant
                    self.wf(),
                    inputs@.len() == self.input_size,
                    hidden@.len() == self.hidden_size,
                    forall|k: int| 0 <= k < hidden@.len() ==> 0 <= #[trigger] hidden@[k]
                        <= HIDDEN_VALUE_LIMIT,
                    forall|k: int|
                        0 <= k < self.hidden_size ==> self.spec_hidden_seq(inputs@)[k]
                            == #[trigger] hidden@[k],
                    i < self.output_size,
                    row@ == self.weights_ho@[i as int]@,
                    j <= self.hidden_size,
                    acc == dot_fp(row@, self.spec_hidden_seq(inputs@), j as int),
                    -16388000 * j <= acc <= 16388000 * j,
                decreases self.hidden_size - j,
            {
                proof {
                    lemma_layer2_term_bound(row@[j as int], hidden@[j as int]);
                }
                let t: i64 = row[j] * hidden[j];
                let term: i64 = div_floor(t, SCALE);
                acc = acc + term;
                j = j + 1;
            }
            let s: i64 = self.bias_o[i] + acc;
            outputs.push(s);
            i = i + 1;
        }
        outputs
    }

    /// Index of the highest output score; ties go to the earliest index.
    pub fn get_best_action(&self, inputs: &Vec<i64>) -> (action: usize)
        requires
            self.wf(),
            inputs@.len() == self.input_size,
            forall|k: int| 0 <= k < inputs@.len() ==> -SCALE <= #[trigger] inputs@[k] <= SCALE,
        ensures
            action < self.output_size,
            forall|j: int|
                0 <= j < self.output_size ==> #[trigger] self.spec_output(inputs@, j)
                    <= self.spec_output(inputs@, action as int),
            forall|j: int|
                0 <= j < action ==> #[trigger] self.spec_output(inputs@, j)
                    < self.spec_output(inputs@, action as int),
    {
        let outputs = self.forward(inputs);
        let mut best: usize = 0;
        let mut idx: usize = 1;
        while idx < outputs.len()
            invariant
                outputs@.len() == self.output_size,
                1 <= self.output_size,
                forall|k: int| 0 <= k < outputs@.len() ==> outputs@[k] == self.spec_output(
                    inputs@,
                    k,
                ),
                best < idx <= outputs@.len(),
                forall|j: int| 0 <= j < idx ==> #[trigger] outputs@[j] <= outputs@[best as int],
                forall|j: int| 0 <= j < best ==> #[trigger] outputs@[j] < outputs@[best as int],
            decreases outputs@.len() - idx,
        {
            if outputs[idx] > outputs[best] {
                best = idx;
            }
            idx = idx + 1;
        }
        proof {
            assert forall|j: int| 0 <= j < self.output_size implies #[trigger] self.spec_output(
                inputs@,
                j,
            ) <= self.spec_output(inputs@, best as int) by {
                assert(outputs@[j] <= outputs@[best as int]);
            }
            assert forall|j: int| 0 <= j < best implies #[trigger] self.spec_output(inputs@, j)
                < self.spec_output(inputs@, best as int) by {
                assert(outputs@[j] < outputs@[best as int]);
            }
        }
        best
    }

    /// Mutates each weight and bias independently: with probability
    /// `rate` thousandths it moves by a uniform delta in
    /// `[-MUTATE_STEP, MUTATE_STEP]` and is clamped to
    /// `[-WEIGHT_LIMIT, WEIGHT_LIMIT]`.  A rate of zero or less leaves the
    /// network untouched.
    pub fn mutate(&mut self, rate: i64, rng: &mut rand::rngs::StdRng)
        requires
            old(self).wf(),
        ensures
            final(self).wf(),
            final(self).input_size == old(self).input_size,
            final(self).hidden_size == old(self).hidden_size,
            final(self).output_size == old(self).output_size,
            nn_step_close(*old(self), *final(self)),
            rate <= 0 ==> nn_eq(*final(self), *old(self)),
    {
        mutate_matrix(&mut self.weights_ih, rate, rng);
        mutate_row(&mut self.bias_h, rate, rng);
        mutate_matrix(&mut self.weights_ho, rate, rng);
        mutate_row(&mut self.bias_o, rate, rng);
    }
}

/// No clause of `wf` changes when the rows keep their lengths and values
/// stay in range, so mutation preserves it; spelled out here once for the
/// two matrices and two bias rows of `mutate`.
fn mutate_matrix(m: &mut Vec<Vec<i64>>, rate: i64, rng: &mut rand::rngs::StdRng)
    requires
        forall|i: int, j: int|
            0 <= i < old(m)@.len() && 0 <= j < old(m)@[i]@.len()
                ==> -WEIGHT_LIMIT <= #[trigger] old(m)@[i]@[j] <= WEIGHT_LIMIT,
    ensures
        final(m)@.len() == old(m)@.len(),
        forall|i: int|
            0 <= i < old(m)@.len() ==> (#[trigger] final(m)@[i]@).len() == old(m)@[i]@.len(),
        forall|i: int, j: int|
            0 <= i < final(m)@.len() && 0 <= j < final(m)@[i]@.len()
                ==> -WEIGHT_LIMIT <= #[trigger] final(m)@[i]@[j] <= WEIGHT_LIMIT,
        forall|i: int, j: int|
            0 <= i < final(m)@.len() && 0 <= j < final(m)@[i]@.len()
                ==> -MUTATE_STEP <= (#[trigger] final(m)@[i]@[j]) - old(m)@[i]@[j] <= MUTATE_STEP,
        rate <= 0 ==> forall|i: int|
            0 <= i < final(m)@.len() ==> #[trigger] final(m)@[i]@ == old(m)@[i]@,
{
    let mut i: usize = 0;
    while i < m.len()
        invariant
            m@.len() == old(m)@.len(),
            i <= m@.len(),
            forall|k: int|
                0 <= k < m@.len() ==> (#[trigger] m@[k]@).len() == old(m)@[k]@.len(),
            forall|k: int, j: int|
                0 <= k < m@.len() && 0 <= j < m@[k]@.len()
                    ==> -WEIGHT_LIMIT <= #[trigger] m@[k]@[j] <= WEIGHT_LIMIT,
            forall|k: int, j: int|
                0 <= k < m@.len() && 0 <= j < m@[k]@.len()
                    ==> -MUTATE_STEP <= (#[trigger] m@[k]@[j]) - old(m)@[k]@[j] <= MUTATE_STEP,
            forall|k: int| i <= k < m@.len() ==> #[trigger] m@[k]@ == old(m)@[k]@,
            rate <= 0 ==> forall|k: int|
                0 <= k < m@.len() ==> #[trigger] m@[k]@ == old(m)@[k]@,
        decreases m@.len() - i,
    {
        let mut j: usize = 0;
        while j < m[i].len()
            invariant
                m@.len() == old(m)@.len(),
                i < m@.len(),
                j <= m@[i as int]@.len(),
                forall|k: int|
                    0 <= k < m@.len() ==> (#[trigger] m@[k]@).len() == old(m)@[k]@.len(),
                forall|k: int, l: int|
                    0 <= k < m@.len() && 0 <= l < m@[k]@.len()
                        ==> -WEIGHT_LIMIT <= #[trigger] m@[k]@[l] <= WEIGHT_LIMIT,
                forall|k: int, l: int|
                    0 <= k < m@.len() && 0 <= l < m@[k]@.len()
                        ==> -MUTATE_STEP <= (#[trigger] m@[k]@[l]) - old(m)@[k]@[l] <= MUTATE_STEP,
                forall|k: int| i < k < m@.len() ==> #[trigger] m@[k]@ == old(m)@[k]@,
                forall|l: int|
                    j <= l < m@[i as int]@.len() ==> #[trigger] m@[i as int]@[l] == old(m)@[i
                        as int]@[l],
                rate <= 0 ==> forall|k: int|
                    0 <= k < m@.len() ==> #[trigger] m@[k]@ == old(m)@[k]@,
            decreases m@[i as int]@.len() - j,
        {
            let u = rand_range(rng, 0, SCALE);
            if u < rate {
                let delta = rand_range(rng, -MUTATE_STEP, MUTATE_STEP + 1);
                let v: i64 = m[i][j];
                let nv = clamp_fp(v + delta, -WEIGHT_LIMIT, WEIGHT_LIMIT);
                m[i][j] = nv;
            }
            j = j + 1;
        }
        i = i + 1;
    }
}

fn mutate_row(row: &mut Vec<i64>, rate: i64, rng: &mut rand::rngs::StdRng)
    requires
        forall|i: int|
            0 <= i < old(row)@.len() ==> -WEIGHT_LIMIT <= #[trigger] old(row)@[i] <= WEIGHT_LIMIT,
    ensures
        final(row)@.len() == old(row)@.len(),
        forall|i: int|
            0 <= i < final(row)@.len() ==> -WEIGHT_LIMIT <= #[trigger] final(row)@[i]
                <= WEIGHT_LIMIT,
        forall|i: int|
            0 <= i < final(row)@.len() ==> -MUTATE_STEP <= (#[trigger] final(row)@[i]) - old(
                row,
            )@[i] <= MUTATE_STEP,
        rate <= 0 ==> final(row)@ == old(row)@,
{
    let mut i: usize = 0;
    while i < row.len()
        invariant
            row@.len() == old(row)@.len(),
            i <= row@.len(),
            forall|k: int|
                0 <= k < row@.len() ==> -WEIGHT_LIMIT <= #[trigger] row@[k] <= WEIGHT_LIMIT,
            forall|k: int|
                0 <= k < row@.len() ==> -MUTATE_STEP <= (#[trigger] row@[k]) - old(row)@[k]
                    <= MUTATE_STEP,
            forall|k: int| i <= k < row@.len() ==> #[trigger] row@[k] == old(row)@[k],
            rate <= 0 ==> row@ == old(row)@,
        decreases row@.len() - i,
    {
        let u = rand_range(rng, 0, SCALE);
        if u < rate {
            let delta = rand_range(rng, -MUTATE_STEP, MUTATE_STEP + 1);
            let v: i64 = row[i];
            let nv = clamp_fp(v + delta, -WEIGHT_LIMIT, WEIGHT_LIMIT);
            row[i] = nv;
        }
        i = i + 1;
    }
}

fn random_row(n: usize, rng: &mut rand::rngs::StdRng) -> (r: Vec<i64>)
    ensures
        r@.len() == n,
        forall|i: int| 0 <= i < n ==> -WEIGHT_INIT <= #[trigger] r@[i] < WEIGHT_INIT,
{
    let mut r: Vec<i64> = Vec::new();
    let mut i: usize = 0;
    while i < n
        invariant
            i <= n,
            r@.len() == i,
            forall|k: int| 0 <= k < i ==> -WEIGHT_INIT <= #[trigger] r@[k] < WEIGHT_INIT,
        decreases n - i,
    {
        let v = rand_range(rng, -WEIGHT_INIT, WEIGHT_INIT);
        r.push(v);
        i = i + 1;
    }
    r
}

fn random_matrix(rows: usize, cols: usize, rng: &mut rand::rngs::StdRng) -> (r: Vec<Vec<i64>>)
    ensures
        r@.len() == rows,
        forall|i: int| 0 <= i < rows ==> (#[trigger] r@[i]@).len() == cols,
        forall|i: int, j: int|
            0 <= i < rows && 0 <= j < cols ==> -WEIGHT_INIT <= #[trigger] r@[i]@[j] < WEIGHT_INIT,
{
    let mut r: Vec<Vec<i64>> = Vec::new();
    let mut i: usize = 0;
    while i < rows
        invariant
            i <= rows,
            r@.len() == i,
            forall|k: int| 0 <= k < i ==> (#[trigger] r@[k]@).len() == cols,
            forall|k: int, j: int|
                0 <= k < i && 0 <= j < cols
                    ==> -WEIGHT_INIT <= #[trigger] r@[k]@[j] < WEIGHT_INIT,
        decreases rows - i,
    {
        let row = random_row(cols, rng);
        r.push(row);
        i = i + 1;
    }
    r
}

proof fn lemma_layer1_term_bound(w: i64, x: i64)
    requires
        -WEIGHT_LIMIT <= w <= WEIGHT_LIMIT,
        -SCALE <= x <= SCALE,
    ensures
        -2000000 <= w * x <= 2000000,
        -WEIGHT_LIMIT <= (w * x) / (SCALE as int) <= WEIGHT_LIMIT,
{
    assert(-2000000 <= w * x <= 2000000) by (nonlinear_arith)
        requires -2000 <= w <= 2000, -1000 <= x <= 1000;
    vstd::arithmetic::div_mod::lemma_div_is_ordered(-2000000, w * x, 1000);
    vstd::arithmetic::div_mod::lemma_div_is_ordered(w * x, 2000000, 1000);
}

proof fn lemma_layer2_term_bound(w: i64, h: i64)
    requires
        -WEIGHT_LIMIT <= w <= WEIGHT_LIMIT,
        0 <= h <= HIDDEN_VALUE_LIMIT,
    ensures
        -16388000000 <= w * h <= 16388000000,
        -OUTPUT_TERM_LIMIT <= (w * h) / (SCALE as int) <= OUTPUT_TERM_LIMIT,
{
    assert(-16388000000 <= w * h <= 16388000000) by (nonlinear_arith)
        requires -2000 <= w <= 2000, 0 <= h <= 8194000;
    vstd::arithmetic::div_mod::lemma_div_is_ordered(-16388000000, w * h, 1000);
    vstd::arithmetic::div_mod::lemma_div_is_ordered(w * h, 16388000000, 1000);
}

/// The dot product of the first `n` terms is zero whenever every weight in
/// play is zero.
proof fn lemma_dot_fp_zero_weights(w: Seq<i64>, x: Seq<i64>, n: int)
    requires
        forall|k: int| 0 <= k < n ==> #[trigger] w[k] == 0,
    ensures
        dot_fp(w, x, n) == 0,
    decreases n,
{
    if n > 0 {
        lemma_dot_fp_zero_weights(w, x, n - 1);
        assert(w[n - 1] * x[n - 1] == 0) by (nonlinear_arith)
            requires w[n - 1] == 0;
    }
}

/// With all weights and biases zero, every output of the forward pass is
/// zero on every input: the rectifier maps the zero sums to zero and the
/// output layer adds nothing.
pub proof fn lemma_forward_all_zero(nn: NeuralNetwork, inputs: Seq<i64>, i: int)
    requires
        nn.wf(),
        nn_all_zero(nn),
        inputs.len() == nn.input_size,
        0 <= i < nn.output_size,
    ensures
        nn.spec_output(inputs, i) == 0,
{
    lemma_dot_fp_zero_weights(nn.weights_ho@[i]@, nn.spec_hidden_seq(inputs), nn.hidden_size as int);
}


impl Clone for NeuralNetwork {
    /// An exact deep copy: same shape, same weights and biases.
    fn clone(&self) -> (r: Self)
        ensures
            nn_eq(r, *self),
            r.input_size == self.input_size,
            r.hidden_size == self.hidden_size,
            r.output_size == self.output_size,
            self.wf() ==> r.wf(),
    {
        NeuralNetwork {
            weights_ih: clone_matrix(&self.weights_ih),
            bias_h: clone_row(&self.bias_h),
            weights_ho: clone_matrix(&self.weights_ho),
            bias_o: clone_row(&self.bias_o),
            input_size: self.input_size,
            hidden_size: self.hidden_size,
            output_size: self.output_size,
        }
    }
}

fn clone_row(row: &Vec<i64>) -> (r: Vec<i64>)
    ensures
        r@ == row@,
{
    let mut r: Vec<i64> = Vec::new();
    let mut i: usize = 0;
    while i < row.len()
        invariant
            i <= row@.len(),
            r@ == row@.take(i as int),
        decreases row@.len() - i,
    {
        r.push(row[i]);
        proof {
            assert(row@.take(i as int).push(row@[i as int]) =~= row@.take(i as int + 1));
        }
        i = i + 1;
    }
    proof {
        assert(row@.take(row@.len() as int) =~= row@);
    }
    r
}

fn clone_matrix(m: &Vec<Vec<i64>>) -> (r: Vec<Vec<i64>>)
    ensures
        r@.len() == m@.len(),
        forall|i: int| 0 <= i < m@.len() ==> #[trigger] r@[i]@ == m@[i]@,
{
    let mut r: Vec<Vec<i64>> = Vec::new();
    let mut i: usize = 0;
    while i < m.len()
        invariant
            i <= m@.len(),
            r@.len() == i,
            forall|k: int| 0 <= k < i ==> #[trigger] r@[k]@ == m@[k]@,
        decreases m@.len() - i,
    {
        let row = clone_row(&m[i]);
        r.push(row);
        i = i + 1;
    }
    r
}

} // verus!
