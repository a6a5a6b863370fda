//! Genome encoding and the feed-forward control network.
//!
//! A genome is a topology (`hidden_layers`) plus one flat weight vector.
//! Evaluation processes the layers in order; for a layer with `in_size`
//! inputs and `out_size` neurons it consumes `in_size * out_size` weights
//! (row-major: one row per neuron) followed by `out_size` biases, and
//! squashes every pre-activation through the bounded odd function
//! `x * SCALE / (SCALE + |x|)`, which keeps every activation strictly
//! inside `(-SCALE, SCALE)`. The output layer is then ranged per slot:
//! slot zero stays bipolar in `(-SCALE, SCALE)` for steering, and every
//! later slot is folded into `[0, SCALE)` for unipolar actuators such as
//! throttle and brake — so the outputs land in the ranges the control
//! clamp expects without relying on clamping. All values are fixed-point
//! thousandths.

use vstd::prelude::*;

use vstd::arithmetic::div_mod::{
    lemma_div_is_ordered,
    lemma_div_multiples_vanish,
    lemma_fundamental_div_mod,
};

use crate::control::VehicleControl;
use crate::num::{lemma_tdiv_shrinks, tdiv64, tdiv_spec, tdiv128};
use crate::sensors::{SensorConfig, SensorReadings};
use crate::{INPUT_LIMIT, SCALE, WEIGHT_LIMIT};

verus! {

/// Why an evaluation or a reproduction step was refused.
#[derive(Debug, Clone, Copy, PartialEq, Eq, Structural)]
pub enum BrainError {
    /// The genome's weight count does not match the expected topology,
    /// or two genomes of differing topology were crossed.
    InvalidGenome,
    /// The input vector does not have the network's input arity.
    SensorShapeMismatch,
}

/// One individual's controller parameters: the hidden-layer sizes and the
/// flat weight vector (fixed-point thousandths). A genome never mutates
/// once placed in a generation; reproduction builds new genomes.
#[derive(Debug, PartialEq, Eq)]
pub struct Genome {
    pub hidden_layers: Vec<usize>,
    pub weights: Vec<i64>,
}

/// Every weight within the magnitude the evaluator accepts.
pub open spec fn weights_bounded(ws: Seq<i64>) -> bool {
    forall|i: int| 0 <= i < ws.len() ==> -WEIGHT_LIMIT <= #[trigger] ws[i] <= WEIGHT_LIMIT
}

/// Every activation within the magnitude the evaluator accepts.
pub open spec fn inputs_bounded(xs: Seq<i64>) -> bool {
    forall|i: int| 0 <= i < xs.len() ==> -INPUT_LIMIT <= #[trigger] xs[i] <= INPUT_LIMIT
}

/// The number of weights the layers of `sizes` consume when the first
/// layer reads `in_size` inputs: per layer, one weight row per neuron
/// plus one bias per neuron.
pub open spec fn expected_from(in_size: int, sizes: Seq<usize>) -> int
    decreases sizes.len(),
{
    if sizes.len() == 0 {
        0
    } else {
        in_size * sizes[0] + sizes[0] + expected_from(sizes[0] as int, sizes.skip(1))
    }
}

/// Total weight count demanded of a genome evaluated with the given
/// arity: hidden layers first, then the output layer.
pub open spec fn expected_weights(inputs: usize, hidden: Seq<usize>, outputs: usize) -> int {
    expected_from(inputs as int, hidden.push(outputs))
}

/// The weight demand of a non-negative fan-in is non-negative, and at
/// least one per layer when every layer has a neuron.
pub proof fn lemma_expected_from_nonneg(in_size: int, sizes: Seq<usize>)
    requires
        in_size >= 0,
    ensures
        expected_from(in_size, sizes) >= 0,
        (forall|i: int| 0 <= i < sizes.len() ==> sizes[i] >= 1) ==> expected_from(in_size, sizes)
            >= sizes.len(),
    decreases sizes.len(),
{
    if sizes.len() > 0 {
        assert(in_size * sizes[0] >= 0) by (nonlinear_arith)
            requires
                in_size >= 0,
                sizes[0] >= 0,
        ;
        lemma_expected_from_nonneg(sizes[0] as int, sizes.skip(1));
        assert(forall|i: int| 0 <= i < sizes.skip(1).len() ==> #[trigger] sizes.skip(1)[i]
            == sizes[i + 1]);
    }
}

impl Genome {
    /// A fresh genome with the given hidden topology and no weights yet.
    pub fn new(hidden_layers: Vec<usize>) -> (g: Genome)
        ensures
            g.hidden_layers@ == hidden_layers@,
            g.weights@.len() == 0,
    {
        Genome { hidden_layers, weights: Vec::new() }
    }

    /// Every hidden layer has at least one neuron.
    pub open spec fn topology_wf(&self) -> bool {
        forall|i: int| 0 <= i < self.hidden_layers@.len() ==> #[trigger] self.hidden_layers@[i]
            >= 1
    }

    /// The weight vector has exactly the length the topology demands for
    /// the given arity; a genome violating this must never be evaluated.
    pub open spec fn fits(&self, inputs: usize, outputs: usize) -> bool {
        self.weights@.len() == expected_weights(inputs, self.hidden_layers@, outputs)
    }

    /// Two genomes share a topology exactly when their hidden layers and
    /// weight counts agree.
    pub open spec fn same_topology(&self, other: &Genome) -> bool {
        &&& self.hidden_layers@ == other.hidden_layers@
        &&& self.weights@.len() == other.weights@.len()
    }

    /// An exact deep copy.
    pub fn duplicate(&self) -> (g: Genome)
        ensures
            g.hidden_layers@ == self.hidden_layers@,
            g.weights@ == self.weights@,
    {
        let mut hidden: Vec<usize> = Vec::new();
        let mut i: usize = 0;
        while i < self.hidden_layers.len()
            invariant
                i <= self.hidden_layers@.len(),
                hidden@ == self.hidden_layers@.take(i as int),
            decreases self.hidden_layers@.len() - i,
        {
            hidden.push(self.hidden_layers[i]);
            proof {
                assert(hidden@ =~= self.hidden_layers@.take(i as int + 1));
            }
            i = i + 1;
        }
        let mut weights: Vec<i64> = Vec::new();
        let mut j: usize = 0;
        while j < self.weights.len()
            invariant
                j <= self.weights@.len(),
                weights@ == self.weights@.take(j as int),
            decreases self.weights@.len() - j,
        {
            weights.push(self.weights[j]);
            proof {
                assert(weights@ =~= self.weights@.take(j as int + 1));
            }
            j = j + 1;
        }
        proof {
            assert(hidden@ =~= self.hidden_layers@);
            assert(weights@ =~= self.weights@);
        }
        Genome { hidden_layers: hidden, weights }
    }
}

impl Clone for Genome {
    /// Cloning yields an equal genome.
    fn clone(&self) -> (g: Genome)
        ensures
            g.hidden_layers@ == self.hidden_layers@,
            g.weights@ == self.weights@,
    {
        self.duplicate()
    }
}

/// The bounded squashing applied to every pre-activation:
/// `x * SCALE / (SCALE + |x|)`, truncated toward zero. Odd, and strictly
/// inside `(-SCALE, SCALE)` for every argument.
pub open spec fn sat_spec(x: int) -> int {
    if x >= 0 {
        (x * SCALE) / (SCALE + x)
    } else {
        -(((-x) * SCALE) / (SCALE - x))
    }
}

/// The squash keeps its sign and lands strictly inside the open interval
/// `(-SCALE, SCALE)`.
pub proof fn lemma_sat_bounds(x: int)
    ensures
        -SCALE < sat_spec(x) < SCALE,
        x >= 0 ==> sat_spec(x) >= 0,
        x < 0 ==> sat_spec(x) <= 0,
{
    if x >= 0 {
        lemma_sat_nonneg_bounds(x);
    } else {
        lemma_sat_nonneg_bounds(-x);
    }
}

/// Bounds of the squash on a non-negative argument.
proof fn lemma_sat_nonneg_bounds(x: int)
    requires
        x >= 0,
    ensures
        0 <= (x * SCALE) / (SCALE + x) < SCALE,
{
    let num = x * SCALE;
    let den = SCALE + x;
    assert(num >= 0) by (nonlinear_arith)
        requires
            x >= 0,
            num == x * SCALE,
    ;
    lemma_fundamental_div_mod(num, den);
    let q = num / den;
    assert(q >= 0) by (nonlinear_arith)
        requires
            num >= 0,
            den > 0,
            q == num / den,
    ;
    assert(q < SCALE) by (nonlinear_arith)
        requires
            num == den * q + num % den,
            0 <= num % den,
            num == x * SCALE,
            den == SCALE + x,
            x >= 0,
            q >= 0,
            SCALE == 1000,
    ;
}

/// The squash is monotone: a larger pre-activation never yields a
/// smaller output.
pub proof fn lemma_sat_monotone(x1: int, x2: int)
    requires
        x1 <= x2,
    ensures
        sat_spec(x1) <= sat_spec(x2),
{
    if 0 <= x1 {
        lemma_sat_nonneg_monotone(x1, x2);
    } else if x2 < 0 {
        lemma_sat_nonneg_monotone(-x2, -x1);
    } else {
        lemma_sat_bounds(x1);
        lemma_sat_bounds(x2);
    }
}

/// Monotonicity of the squash on non-negative arguments.
proof fn lemma_sat_nonneg_monotone(a: int, b: int)
    requires
        0 <= a <= b,
    ensures
        (a * SCALE) / (SCALE + a) <= (b * SCALE) / (SCALE + b),
{
    let q = (a * SCALE) / (SCALE + a);
    lemma_sat_nonneg_bounds(a);
    lemma_fundamental_div_mod(a * SCALE, SCALE + a);
    assert(q * (SCALE + b) <= b * SCALE) by (nonlinear_arith)
        requires
            0 <= a <= b,
            0 <= q < SCALE,
            a * SCALE == (SCALE + a) * q + (a * SCALE) % (SCALE + a),
            0 <= (a * SCALE) % (SCALE + a),
            SCALE == 1000,
    ;
    lemma_div_is_ordered(q * (SCALE + b), b * SCALE, SCALE + b);
    lemma_div_multiples_vanish(q, SCALE + b);
    assert((SCALE + b) * q == q * (SCALE + b)) by (nonlinear_arith);
}

/// Weighted sum of two equally long slices, exact.
pub open spec fn dot(w: Seq<i64>, x: Seq<i64>) -> int
    decreases w.len(),
{
    if w.len() == 0 || x.len() == 0 {
        0
    } else {
        w.last() as int * x.last() as int + dot(w.drop_last(), x.drop_last())
    }
}

/// Output of one neuron: weighted sum scaled back to thousandths, plus
/// bias, squashed.
pub open spec fn neuron_out(ws: Seq<i64>, x: Seq<i64>, bias: i64) -> int {
    sat_spec(tdiv_spec(dot(ws, x), SCALE as int) + bias)
}

/// Outputs of one layer of `out_size` neurons reading `x`. `block` holds
/// the layer's weights: `out_size` rows of `x.len()` weights, then
/// `out_size` biases.
pub open spec fn layer_out(block: Seq<i64>, x: Seq<i64>, out_size: int) -> Seq<i64> {
    Seq::new(
        out_size as nat,
        |j: int|
            neuron_out(
                block.subrange(j * x.len(), (j + 1) * x.len()),
                x,
                block[out_size * x.len() + j],
            ) as i64,
    )
}

/// The network's output: the layers of `sizes` applied in order to `x`,
/// each consuming its block of the flat weight vector.
pub open spec fn network_out(weights: Seq<i64>, x: Seq<i64>, sizes: Seq<usize>) -> Seq<i64>
    decreases sizes.len(),
{
    if sizes.len() == 0 {
        x
    } else {
        let in_size = x.len() as int;
        let out_size = sizes[0] as int;
        let block = in_size * out_size + out_size;
        let y = layer_out(weights.take(block), x, out_size);
        network_out(weights.skip(block), y, sizes.skip(1))
    }
}

/// The network emits exactly one value per neuron of its last layer.
pub proof fn lemma_network_out_len(weights: Seq<i64>, x: Seq<i64>, sizes: Seq<usize>)
    ensures
        sizes.len() > 0 ==> network_out(weights, x, sizes).len() == sizes.last(),
        sizes.len() == 0 ==> network_out(weights, x, sizes) == x,
    decreases sizes.len(),
{
    if sizes.len() > 0 {
        let in_size = x.len() as int;
        let out_size = sizes[0] as int;
        let block = in_size * out_size + out_size;
        let y = layer_out(weights.take(block), x, out_size);
        lemma_network_out_len(weights.skip(block), y, sizes.skip(1));
    }
}

/// The range applied to output slot `j`: slot zero keeps the bipolar
/// squashed value (steering); every later slot is folded into
/// `[0, SCALE)` (throttle, brake and any further unipolar actuator).
pub open spec fn output_range_spec(j: int, y: i64) -> i64 {
    if j == 0 {
        y
    } else {
        ((y + SCALE) / 2) as i64
    }
}

/// The per-slot ranging applied to the output layer's activations.
pub open spec fn remap_outputs_spec(y: Seq<i64>) -> Seq<i64> {
    Seq::new(y.len(), |j: int| output_range_spec(j, y[j]))
}

/// The stateless evaluator: a fixed `(inputs, outputs)` arity; genomes are
/// passed per call.
#[derive(Debug, Clone, Copy, PartialEq, Eq, Structural)]
pub struct Brain {
    pub inputs: usize,
    pub outputs: usize,
}

impl Brain {
    /// Positive arity on both sides.
    pub open spec fn wf(&self) -> bool {
        self.inputs >= 1 && self.outputs >= 1
    }

    /// Builds an evaluator; both arities must be positive.
    pub fn new(inputs: usize, outputs: usize) -> (b: Self)
        requires
            inputs >= 1,
            outputs >= 1,
        ensures
            b == (Brain { inputs, outputs }),
            b.wf(),
    {
        Brain { inputs, outputs }
    }

    /// The full network result for a genome and input vector: the layers
    /// applied in order, then the per-slot output ranging.
    pub open spec fn evaluate_spec(&self, g: Genome, x: Seq<i64>) -> Seq<i64> {
        remap_outputs_spec(network_out(g.weights@, x, g.hidden_layers@.push(self.outputs)))
    }
}

/// `a * b`, or `None` on overflow.
fn checked_mul_usize(a: usize, b: usize) -> (r: Option<usize>)
    ensures
        r matches Some(v) ==> v == a * b,
        r is None ==> a * b > usize::MAX,
{
    if b == 0 {
        proof {
            assert(a * 0 == 0) by (nonlinear_arith);
        }
        Some(0)
    } else if a > usize::MAX / b {
        proof {
            lemma_fundamental_div_mod(usize::MAX as int, b as int);
            assert(a * b > usize::MAX) by (nonlinear_arith)
                requires
                    b >= 1,
                    a > usize::MAX as int / b as int,
                    usize::MAX as int == b * (usize::MAX as int / b as int) + usize::MAX as int
                        % b as int,
                    (usize::MAX as int % b as int) < b,
            ;
        }
        None
    } else {
        proof {
            lemma_fundamental_div_mod(usize::MAX as int, b as int);
            assert(a * b <= usize::MAX) by (nonlinear_arith)
                requires
                    b >= 1,
                    a <= usize::MAX as int / b as int,
                    usize::MAX as int == b * (usize::MAX as int / b as int) + usize::MAX as int
                        % b as int,
                    usize::MAX as int % b as int >= 0,
            ;
        }
        Some(a * b)
    }
}

/// `a + b`, or `None` on overflow.
fn checked_add_usize(a: usize, b: usize) -> (r: Option<usize>)
    ensures
        r matches Some(v) ==> v == a + b,
        r is None ==> a + b > usize::MAX,
{
    if a <= usize::MAX - b {
        Some(a + b)
    } else {
        None
    }
}

/// The weight count the topology demands, or `None` when it exceeds what
/// a vector could even hold.
pub fn expected_weight_count(inputs: usize, hidden: &Vec<usize>, outputs: usize) -> (r: Option<
    usize,
>)
    ensures
        r matches Some(v) ==> v == expected_weights(inputs, hidden@, outputs),
        r is None ==> expected_weights(inputs, hidden@, outputs) > usize::MAX,
{
    let ghost sizes: Seq<usize> = hidden@.push(outputs);
    let n = hidden.len();
    let mut acc: usize = 0;
    let mut in_size: usize = inputs;
    let mut l: usize = 0;
    proof {
        assert(sizes.skip(0) =~= sizes);
    }
    while l < n
        invariant
            0 <= l <= n,
            n == hidden@.len(),
            sizes == hidden@.push(outputs),
            expected_weights(inputs, hidden@, outputs) == acc + expected_from(
                in_size as int,
                sizes.skip(l as int),
            ),
        decreases n - l,
    {
        let out_size = hidden[l];
        proof {
            assert(sizes.skip(l as int)[0] == sizes[l as int]);
            assert(sizes[l as int] == out_size);
        }
        let row = match checked_mul_usize(in_size, out_size) {
            Some(v) => v,
            None => {
                proof {
                    lemma_expected_from_nonneg(out_size as int, sizes.skip(l as int).skip(1));
                }
                return None;
            },
        };
        let with_bias = match checked_add_usize(row, out_size) {
            Some(v) => v,
            None => {
                proof {
                    lemma_expected_from_nonneg(out_size as int, sizes.skip(l as int).skip(1));
                }
                return None;
            },
        };
        let new_acc = match checked_add_usize(acc, with_bias) {
            Some(v) => v,
            None => {
                proof {
                    lemma_expected_from_nonneg(out_size as int, sizes.skip(l as int).skip(1));
                }
                return None;
            },
        };
        proof {
            assert(sizes.skip(l as int).skip(1) =~= sizes.skip(l as int + 1));
        }
        acc = new_acc;
        in_size = out_size;
        l = l + 1;
    }
    proof {
        assert(sizes.skip(n as int)[0] == sizes[n as int]);
        assert(sizes[n as int] == outputs);
        assert(sizes.skip(n as int).skip(1) =~= Seq::<usize>::empty());
        assert(expected_from(outputs as int, Seq::<usize>::empty()) == 0);
        assert(expected_from(in_size as int, sizes.skip(n as int)) == in_size as int * outputs
            + outputs);
        lemma_expected_from_nonneg(in_size as int, sizes.skip(n as int));
    }
    let row = match checked_mul_usize(in_size, outputs) {
        Some(v) => v,
        None => {
            return None;
        },
    };
    let with_bias = match checked_add_usize(row, outputs) {
        Some(v) => v,
        None => {
            return None;
        },
    };
    let total = match checked_add_usize(acc, with_bias) {
        Some(v) => v,
        None => {
            return None;
        },
    };
    Some(total)
}


/// Largest pre-activation magnitude the squash accepts without overflow.
pub const PRE_LIMIT: i128 = 100_000_000_000_000_000_000_000_000_000_000;

/// Applies the bounded squash to a pre-activation.
fn sat128(x: i128) -> (r: i64)
    requires
        -PRE_LIMIT <= x <= PRE_LIMIT,
    ensures
        r == sat_spec(x as int),
        -SCALE < r < SCALE,
{
    proof {
        lemma_sat_bounds(x as int);
    }
    if x >= 0 {
        let num: u128 = (x as u128) * 1000;
        let den: u128 = (x as u128) + 1000;
        let q: u128 = num / den;
        assert(q as int == sat_spec(x as int));
        q as i64
    } else {
        let m: u128 = (-x) as u128;
        let num: u128 = m * 1000;
        let den: u128 = m + 1000;
        let q: u128 = num / den;
        assert(q as int == -sat_spec(x as int));
        -(q as i64)
    }
}

/// An exact copy of a value vector.
fn copy_vec_i64(v: &Vec<i64>) -> (r: Vec<i64>)
    ensures
        r@ == v@,
{
    let mut r: Vec<i64> = Vec::new();
    let mut i: usize = 0;
    while i < v.len()
        invariant
            i <= v@.len(),
            r@ == v@.take(i as int),
        decreases v@.len() - i,
    {
        r.push(v[i]);
        proof {
            assert(r@ =~= v@.take(i as int + 1));
        }
        i = i + 1;
    }
    proof {
        assert(r@ =~= v@);
    }
    r
}

/// Evaluates one layer: `out_size` neurons reading `acts`, their weights
/// and biases taken from `weights` starting at `offset`.
fn layer_eval(weights: &Vec<i64>, offset: usize, acts: &Vec<i64>, out_size: usize) -> (next: Vec<
    i64,
>)
    requires
        weights_bounded(weights@),
        inputs_bounded(acts@),
        offset + acts@.len() * out_size + out_size <= weights@.len(),
    ensures
        next@ == layer_out(
            weights@.subrange(
                offset as int,
                offset + acts@.len() * out_size + out_size,
            ),
            acts@,
            out_size as int,
        ),
        next@.len() == out_size,
        forall|t: int| 0 <= t < next@.len() ==> -SCALE < #[trigger] next@[t] < SCALE,
{
    proof {
        vstd::std_specs::vec::axiom_spec_len(weights);
    }
    let in_size: usize = acts.len();
    let ghost block = weights@.subrange(
        offset as int,
        offset + acts@.len() * out_size + out_size,
    );
    let mut next: Vec<i64> = Vec::new();
    let mut j: usize = 0;
    while j < out_size
        invariant
            j <= out_size,
            in_size == acts@.len(),
            weights_bounded(weights@),
            inputs_bounded(acts@),
            offset + in_size * out_size + out_size <= weights@.len(),
            weights@.len() <= usize::MAX,
            block == weights@.subrange(
                offset as int,
                offset + in_size * out_size + out_size,
            ),
            next@.len() == j,
            forall|t: int| 0 <= t < j ==> next@[t] == layer_out(block, acts@, out_size as int)[t],
            forall|t: int| 0 <= t < next@.len() ==> -SCALE < #[trigger] next@[t] < SCALE,
        decreases out_size - j,
    {
        proof {
            assert((j + 1) * in_size <= out_size * in_size) by (nonlinear_arith)
                requires
                    0 <= j,
                    j < out_size,
                    in_size >= 0,
            ;
            assert(out_size * in_size == in_size * out_size) by (nonlinear_arith);
            assert(j * in_size + in_size == (j + 1) * in_size) by (nonlinear_arith);
            assert(j * in_size + in_size <= in_size * out_size);
        }
        let row: usize = offset + j * in_size;
        let mut sum: i128 = 0;
        let mut i: usize = 0;
        while i < in_size
            invariant
                i <= in_size,
                j < out_size,
                in_size == acts@.len(),
                weights_bounded(weights@),
                inputs_bounded(acts@),
                offset + in_size * out_size + out_size <= weights@.len(),
                weights@.len() <= usize::MAX,
                j * in_size + in_size <= in_size * out_size,
                row == offset + j * in_size,
                sum == dot(
                    weights@.subrange(row as int, row + i),
                    acts@.take(i as int),
                ),
                -(i as int) * 1_000_000_000_000 <= sum <= (i as int) * 1_000_000_000_000,
            decreases in_size - i,
        {
            let w: i64 = weights[row + i];
            let a: i64 = acts[i];
            proof {
                assert(-1_000_000_000_000 <= (w as int) * (a as int) <= 1_000_000_000_000)
                    by (nonlinear_arith)
                    requires
                        -1_000_000 <= w as int <= 1_000_000,
                        -1_000_000 <= a as int <= 1_000_000,
                ;
                assert((i as int) * 1_000_000_000_000 + 1_000_000_000_000 == (i as int + 1)
                    * 1_000_000_000_000) by (nonlinear_arith);
                assert((i as int + 1) * 1_000_000_000_000 <= (in_size as int)
                    * 1_000_000_000_000) by (nonlinear_arith)
                    requires
                        i as int + 1 <= in_size as int,
                ;
                assert((in_size as int) * 1_000_000_000_000
                    <= 18_446_744_073_709_551_615 * 1_000_000_000_000) by (nonlinear_arith)
                    requires
                        in_size as int <= 18_446_744_073_709_551_615,
                ;
            }
            let term: i128 = (w as i128) * (a as i128);
            sum = sum + term;
            proof {
                let wsub = weights@.subrange(row as int, row + i + 1);
                assert(wsub.drop_last() =~= weights@.subrange(row as int, row + i));
                assert(acts@.take(i as int + 1).drop_last() =~= acts@.take(i as int));
                assert(wsub.last() == weights@[row + i]);
                assert(acts@.take(i as int + 1).last() == acts@[i as int]);
            }
            i = i + 1;
        }
        proof {
            assert(acts@.take(in_size as int) =~= acts@);
            assert((in_size as int) * 1_000_000_000_000
                <= 18_446_744_073_709_551_615 * 1_000_000_000_000) by (nonlinear_arith)
                requires
                    in_size as int <= 18_446_744_073_709_551_615,
            ;
            assert(-(in_size as int) * 1_000_000_000_000 <= sum <= (in_size as int)
                * 1_000_000_000_000) by (nonlinear_arith)
                requires
                    -(in_size as int) * 1_000_000_000_000 <= sum,
                    sum <= (in_size as int) * 1_000_000_000_000,
            ;
            lemma_tdiv_shrinks(sum as int, 1000);
        }
        let bias: i64 = weights[offset + in_size * out_size + j];
        let pre: i128 = tdiv128(sum, 1000) + (bias as i128);
        let o: i64 = sat128(pre);
        proof {
            let jj = j as int;
            let inn = in_size as int;
            let ws = block.subrange(jj * inn, (jj + 1) * inn);
            assert(ws =~= weights@.subrange(row as int, row + in_size)) by {
                assert(jj * inn + inn == (jj + 1) * inn) by (nonlinear_arith);
                assert(forall|t: int| 0 <= t < inn ==> ws[t] == weights@[row + t]);
            };
            assert(block[out_size as int * inn + jj] == weights@[offset + in_size * out_size
                + j]) by {
                assert(out_size as int * inn == in_size * out_size) by (nonlinear_arith)
                    requires
                        inn == in_size as int,
                ;
            };
            assert(o as int == neuron_out(ws, acts@, bias));
            assert(layer_out(block, acts@, out_size as int)[jj] == o);
        }
        next.push(o);
        j = j + 1;
    }
    proof {
        assert(next@ =~= layer_out(block, acts@, out_size as int));
    }
    next
}

impl Brain {
    /// Runs the genome's network on one input vector.
    ///
    /// An input of the wrong arity is rejected at this boundary; a genome
    /// whose weight count does not match the topology is rejected before
    /// anything is evaluated. On success the output has exactly `outputs`
    /// values and is a pure function of the genome and the input. Slot
    /// zero (steering) is strictly inside `(-SCALE, SCALE)`; every later
    /// slot (throttle, brake, further actuators) lies in `[0, SCALE)` —
    /// already the ranges the control clamp expects, with no reliance on
    /// clamping. The magnitude bounds in the precondition keep every
    /// intermediate sum inside machine integers.
    pub fn evaluate(&self, genome: &Genome, input: &Vec<i64>) -> (r: Result<Vec<i64>, BrainError>)
        requires
            self.wf(),
            genome.topology_wf(),
            weights_bounded(genome.weights@),
            inputs_bounded(input@),
        ensures
            r is Ok <==> (input@.len() == self.inputs && genome.fits(self.inputs, self.outputs)),
            r matches Ok(out) ==> out@ == self.evaluate_spec(*genome, input@),
            r matches Ok(out) ==> out@.len() == self.outputs,
            r matches Ok(out) ==> forall|t: int|
                0 <= t < out@.len() ==> -SCALE < #[trigger] out@[t] < SCALE,
            r matches Ok(out) ==> forall|t: int| 1 <= t < out@.len() ==> 0 <= #[trigger] out@[t],
            r matches Ok(out) ==> (out@.len() >= 3 ==> (VehicleControl {
                steering: out@[0],
                throttle: out@[1],
                brake: out@[2],
            }).in_range()),
            input@.len() != self.inputs ==> r == Result::<Vec<i64>, BrainError>::Err(
                BrainError::SensorShapeMismatch,
            ),
            input@.len() == self.inputs && !genome.fits(self.inputs, self.outputs) ==> r
                == Result::<Vec<i64>, BrainError>::Err(BrainError::InvalidGenome),
    {
        if input.len() != self.inputs {
            return Err(BrainError::SensorShapeMismatch);
        }
        let expected = expected_weight_count(self.inputs, &genome.hidden_layers, self.outputs);
        let len_matches: bool = match expected {
            Some(v) => v == genome.weights.len(),
            None => false,
        };
        if !len_matches {
            let wl: usize = genome.weights.len();
            assert(wl == genome.weights@.len());
            return Err(BrainError::InvalidGenome);
        }
        let ghost sizes: Seq<usize> = genome.hidden_layers@.push(self.outputs);
        let n: usize = genome.hidden_layers.len();
        proof {
            assert forall|i: int| 0 <= i < sizes.len() implies sizes[i] >= 1 by {
                if i < n {
                    assert(sizes[i] == genome.hidden_layers@[i]);
                } else {
                    assert(sizes[i] == self.outputs);
                }
            }
            vstd::std_specs::vec::axiom_spec_len(&genome.weights);
            lemma_expected_from_nonneg(self.inputs as int, sizes);
            assert(genome.weights@.len() == expected_from(self.inputs as int, sizes));
            assert(genome.weights@.len() >= sizes.len());
            assert(sizes.skip(0) =~= sizes);
            assert(genome.weights@.skip(0) =~= genome.weights@);
        }
        let ghost target: Seq<i64> = network_out(genome.weights@, input@, sizes);
        let mut acts: Vec<i64> = copy_vec_i64(input);
        let mut offset: usize = 0;
        let mut l: usize = 0;
        while l < n + 1
            invariant
                l <= n + 1,
                n == genome.hidden_layers@.len(),
                n + 1 <= genome.weights@.len(),
                genome.weights@.len() <= usize::MAX,
                self.wf(),
                genome.topology_wf(),
                sizes == genome.hidden_layers@.push(self.outputs),
                forall|i: int| 0 <= i < sizes.len() ==> sizes[i] >= 1,
                weights_bounded(genome.weights@),
                inputs_bounded(acts@),
                offset <= genome.weights@.len(),
                offset + expected_from(acts@.len() as int, sizes.skip(l as int))
                    == genome.weights@.len(),
                network_out(genome.weights@.skip(offset as int), acts@, sizes.skip(l as int))
                    == target,
                l >= 1 ==> acts@.len() == sizes[l as int - 1],
                l >= 1 ==> forall|t: int|
                    0 <= t < acts@.len() ==> -SCALE < #[trigger] acts@[t] < SCALE,
            decreases n + 1 - l,
        {
            let out_size: usize = if l < n {
                genome.hidden_layers[l]
            } else {
                self.outputs
            };
            let in_size: usize = acts.len();
            proof {
                assert(sizes.skip(l as int)[0] == sizes[l as int]);
                assert(sizes[l as int] == out_size);
                assert(sizes.skip(l as int).skip(1) =~= sizes.skip(l as int + 1));
                lemma_expected_from_nonneg(out_size as int, sizes.skip(l as int + 1));
                assert(in_size as int * out_size as int >= 0) by (nonlinear_arith)
                    requires
                        in_size as int >= 0,
                        out_size as int >= 0,
                ;
                assert(expected_from(acts@.len() as int, sizes.skip(l as int)) == in_size as int
                    * out_size as int + out_size as int + expected_from(
                    out_size as int,
                    sizes.skip(l as int + 1),
                ));
                assert(in_size as int * out_size as int + out_size as int
                    <= genome.weights@.len() - offset);
            }
            let block: usize = in_size * out_size + out_size;
            let next: Vec<i64> = layer_eval(&genome.weights, offset, &acts, out_size);
            proof {
                let off = offset as int;
                let blk = block as int;
                assert(genome.weights@.skip(off).take(blk) =~= genome.weights@.subrange(
                    off,
                    off + blk,
                ));
                assert(genome.weights@.skip(off).skip(blk) =~= genome.weights@.skip(off + blk));
                assert(network_out(
                    genome.weights@.skip(off + blk),
                    next@,
                    sizes.skip(l as int + 1),
                ) == target);
            }
            offset = offset + block;
            acts = next;
            l = l + 1;
        }
        proof {
            assert(sizes.skip(n as int + 1) =~= Seq::<usize>::empty());
            assert(acts@.len() == sizes[n as int]);
        }
        let ghost raw = acts@;
        let mut out: Vec<i64> = Vec::new();
        let mut j: usize = 0;
        while j < acts.len()
            invariant
                j <= acts@.len(),
                acts@ == raw,
                forall|t: int| 0 <= t < raw.len() ==> -SCALE < #[trigger] raw[t] < SCALE,
                out@.len() == j,
                forall|t: int|
                    0 <= t < j ==> #[trigger] out@[t] == output_range_spec(t, raw[t]),
                forall|t: int| 0 <= t < j ==> -SCALE < #[trigger] out@[t] < SCALE,
                forall|t: int| 1 <= t < j ==> 0 <= #[trigger] out@[t],
            decreases acts@.len() - j,
        {
            if j == 0 {
                out.push(acts[0]);
            } else {
                let shifted: i64 = acts[j] + SCALE;
                out.push(tdiv64(shifted, 2));
            }
            j = j + 1;
        }
        proof {
            assert(raw == target);
            assert(out@ =~= remap_outputs_spec(raw));
        }
        Ok(out)
    }
}

/// The evaluator is deterministic: the network's output is a function of
/// the genome and the input alone, so two successful evaluations of the
/// same pair agree exactly.
pub proof fn lemma_evaluate_deterministic(b: Brain, g: Genome, x: Seq<i64>, r1: Seq<i64>, r2: Seq<
    i64,
>)
    requires
        r1 == b.evaluate_spec(g, x),
        r2 == b.evaluate_spec(g, x),
    ensures
        r1 == r2,
{
}

/// The network's output arity equals the brain's: the output layer always
/// has `outputs` neurons.
pub proof fn lemma_evaluate_arity(b: Brain, g: Genome, x: Seq<i64>)
    ensures
        b.evaluate_spec(g, x).len() == b.outputs,
{
    lemma_network_out_len(g.weights@, x, g.hidden_layers@.push(b.outputs));
}

/// Builds the network input vector from one sensor reading: the ray
/// distances in order, then the speed, then the lateral track offset.
/// A reading whose ray count differs from the configured one is rejected
/// at this boundary, never evaluated.
pub fn brain_input(readings: &SensorReadings, config: &SensorConfig) -> (r: Result<
    Vec<i64>,
    BrainError,
>)
    requires
        config.wf(),
        readings.in_range(*config),
    ensures
        r is Ok <==> readings.distances@.len() == config.ray_count,
        r matches Ok(v) ==> v@ == readings.distances@ + seq![readings.speed, readings.track_offset],
        r matches Ok(v) ==> v@.len() == config.ray_count + 2,
        r matches Ok(v) ==> inputs_bounded(v@),
        r matches Err(e) ==> e == BrainError::SensorShapeMismatch,
{
    if readings.ray_count() != config.ray_count {
        return Err(BrainError::SensorShapeMismatch);
    }
    let mut v = copy_vec_i64(&readings.distances);
    v.push(readings.speed);
    v.push(readings.track_offset);
    proof {
        assert(v@ =~= readings.distances@ + seq![readings.speed, readings.track_offset]);
        assert forall|i: int| 0 <= i < v@.len() implies -INPUT_LIMIT <= #[trigger] v@[i]
            <= INPUT_LIMIT by {
            if i < readings.distances@.len() {
                assert(v@[i] == readings.distances@[i]);
            }
        }
    }
    Ok(v)
}

} // verus!
