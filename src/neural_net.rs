use vstd::prelude::*;

use crate::config::ConfigError;
use crate::matrix::{copy_matrix, filled_with, seq_filled, Matrix};
use crate::propagation::{
    bias_step_rel, column, dot_rel, hidden_delta, hidden_delta_rel, keeps_zero, layer_forward,
    output_delta, output_delta_rel, step_layer, weight_step_rel, ForwardPass,
};

verus! {

/// How the initial weights of a layer are drawn.
#[derive(Debug, Clone, Copy, PartialEq, Eq, Structural)]
pub enum InitMethod {
    LeCunn,
    Glorot,
    He,
}

/// The nonlinearity shared by every non-input layer.
#[derive(Debug, Clone, Copy, PartialEq, Eq, Structural)]
pub enum ActivationFunction {
    Sigmoid,
    Tanh,
    ReLU,
}

/// The bound of a symmetric uniform weight distribution, given by its square:
/// weights are drawn from `[-limit, limit]` with
/// `limit * limit == numerator / denominator`.
#[derive(Debug, Clone, Copy, PartialEq, Eq, Structural)]
pub struct InitBound {
    pub numerator: usize,
    pub denominator: usize,
}

impl InitMethod {
    /// LeCun: `1 / n_in`; Glorot: `6 / (n_in + n_out)`; He: `6 / n_in`.
    pub open spec fn spec_bound(self, n_in: nat, n_out: nat) -> InitBound {
        match self {
            InitMethod::LeCunn => InitBound { numerator: 1, denominator: n_in as usize },
            InitMethod::Glorot => InitBound { numerator: 6, denominator: (n_in + n_out) as usize },
            InitMethod::He => InitBound { numerator: 6, denominator: n_in as usize },
        }
    }

    /// The squared sampling bound for a layer with `n_in` inputs and `n_out`
    /// outputs.
    pub fn bound(&self, n_in: usize, n_out: usize) -> (r: InitBound)
        requires
            n_in + n_out <= usize::MAX,
        ensures
            r == self.spec_bound(n_in as nat, n_out as nat),
    {
        match self {
            InitMethod::LeCunn => InitBound { numerator: 1, denominator: n_in },
            InitMethod::Glorot => InitBound { numerator: 6, denominator: n_in + n_out },
            InitMethod::He => InitBound { numerator: 6, denominator: n_in },
        }
    }

    /// An `n_in` by `n_out` weight matrix, each entry drawn by `draw` from
    /// this method's bound.
    pub fn init_weights<W: Copy, F: Fn(InitBound) -> W>(&self, n_in: usize, n_out: usize, draw: &F) -> (r:
        Matrix<W>)
        requires
            n_in + n_out <= usize::MAX,
            forall|b: InitBound| b.denominator >= 1 ==> draw.requires((b,)),
        ensures
            r.wf(),
            r.rows.len() == n_in,
            r.cols == n_out,
            forall|i: int, j: int|
                0 <= i < n_in && 0 <= j < n_out ==> call_ensures(
                    *draw,
                    (self.spec_bound(n_in as nat, n_out as nat),),
                    #[trigger] r.rows[i][j],
                ),
    {
        let b = self.bound(n_in, n_out);
        let mut rows: Vec<Vec<W>> = Vec::new();
        let mut i: usize = 0;
        while i < n_in
            invariant
                forall|b: InitBound| b.denominator >= 1 ==> draw.requires((b,)),
                b == self.spec_bound(n_in as nat, n_out as nat),
                b.denominator >= 1 || n_in == 0,
                i <= n_in,
                rows.len() == i,
                forall|k: int| 0 <= k < i ==> (#[trigger] rows[k]).len() == n_out,
                forall|k: int, j: int|
                    0 <= k < i && 0 <= j < n_out ==> call_ensures(*draw, (b,), #[trigger] rows[k][j]),
            decreases n_in - i,
        {
            let mut row: Vec<W> = Vec::new();
            let mut j: usize = 0;
            while j < n_out
                invariant
                    forall|b: InitBound| b.denominator >= 1 ==> draw.requires((b,)),
                    b.denominator >= 1,
                    j <= n_out,
                    row.len() == j,
                    forall|k: int| 0 <= k < j ==> call_ensures(*draw, (b,), #[trigger] row[k]),
                decreases n_out - j,
            {
                let w = draw(b);
                row.push(w);
                j = j + 1;
            }
            rows.push(row);
            i = i + 1;
        }
        Matrix { cols: n_out, rows }
    }
}

/// Every weight of a network that `NeuralNet::new` built with `draw` lies
/// within the bound of its layer pair, in whatever sense `within` gives, as
/// long as every value that `draw` returns lies within the bound it was
/// given. For a uniform draw on `[-limit, limit]`, `within(b, w)` is
/// `w * w <= b.numerator / b.denominator`.
pub proof fn lemma_weights_within_bound<W: Copy, F: Fn(InitBound) -> W>(
    net: NeuralNet<W>,
    init_method: InitMethod,
    draw: F,
    within: spec_fn(InitBound, W) -> bool,
)
    requires
        net.shaped(),
        forall|i: int, r: int, c: int|
            0 <= i < net.layers().len() - 1 && 0 <= r < net.layers()[i] && 0 <= c < net.layers()[i
                + 1] ==> call_ensures(
                draw,
                (init_method.spec_bound(net.layers()[i] as nat, net.layers()[i + 1] as nat),),
                #[trigger] net.weights(i).rows[r][c],
            ),
        forall|b: InitBound, w: W| #[trigger] call_ensures(draw, (b,), w) ==> within(b, w),
    ensures
        forall|i: int, r: int, c: int|
            0 <= i < net.layers().len() - 1 && 0 <= r < net.layers()[i] && 0 <= c < net.layers()[i
                + 1] ==> within(
                init_method.spec_bound(net.layers()[i] as nat, net.layers()[i + 1] as nat),
                #[trigger] net.weights(i).rows[r][c],
            ),
{
}

/// Layer sizes where each adjacent pair can be summed without overflow.
pub open spec fn summable_pairs(layers: Seq<usize>) -> bool {
    forall|i: int| 0 <= i < layers.len() - 1 ==> #[trigger] layers[i] + layers[i + 1] <= usize::MAX
}

/// A fully-connected network: one weight matrix and one bias vector for each
/// pair of adjacent layers, and one activation for every layer after the
/// input.
#[derive(Debug, Clone)]
pub struct NeuralNet<W> {
    layers: Vec<usize>,
    biases: Vec<Vec<W>>,
    weights: Vec<Matrix<W>>,
    activation_function: ActivationFunction,
}

impl<W: Copy> NeuralNet<W> {
    pub closed spec fn layers(&self) -> Seq<usize> {
        self.layers@
    }

    /// The weights from layer `i` to layer `i + 1`.
    pub closed spec fn weights(&self, i: int) -> Matrix<W> {
        self.weights[i]
    }

    /// The biases of layer `i + 1`.
    pub closed spec fn biases(&self, i: int) -> Seq<W> {
        self.biases[i]@
    }

    pub closed spec fn activation(&self) -> ActivationFunction {
        self.activation_function
    }

    /// One weight matrix and one bias vector per pair of adjacent layers, each
    /// shaped by the two layer sizes: what `wf` states, over the accessors.
    pub open spec fn shaped(&self) -> bool {
        let l = self.layers();
        &&& l.len() >= 1
        &&& forall|i: int|
            0 <= i < l.len() - 1 ==> {
                &&& (#[trigger] self.weights(i)).wf()
                &&& self.weights(i).rows.len() == l[i]
                &&& self.weights(i).cols == l[i + 1]
                &&& self.biases(i).len() == l[i + 1]
            }
    }

    /// A well-formed network has the shape its layer sizes give.
    pub proof fn lemma_shape(&self)
        requires
            self.wf(),
        ensures
            self.shaped(),
    {
        assert forall|i: int| 0 <= i < self.layers().len() - 1 implies {
            &&& (#[trigger] self.weights(i)).wf()
            &&& self.weights(i).rows.len() == self.layers()[i]
            &&& self.weights(i).cols == self.layers()[i + 1]
            &&& self.biases(i).len() == self.layers()[i + 1]
        } by {
            assert(self.weights[i].wf());
        }
    }

    /// One weight matrix and one bias vector per pair of adjacent layers, each
    /// shaped by the two layer sizes.
    pub closed spec fn wf(&self) -> bool {
        let l = self.layers@;
        &&& l.len() >= 1
        &&& self.weights.len() == l.len() - 1
        &&& self.biases.len() == l.len() - 1
        &&& forall|i: int|
            0 <= i < l.len() - 1 ==> {
                &&& (#[trigger] self.weights[i]).wf()
                &&& self.weights[i].rows.len() == l[i]
                &&& self.weights[i].cols == l[i + 1]
                &&& self.biases[i].len() == l[i + 1]
            }
    }

    /// A network with the given layer sizes, input layer first. Biases start
    /// at `zero`; each weight is drawn by `draw` from `init_method`'s bound
    /// for its layer pair. An empty list of layers is refused.
    pub fn new<F: Fn(InitBound) -> W>(
        layers: &[usize],
        activation_function: ActivationFunction,
        init_method: InitMethod,
        zero: W,
        draw: F,
    ) -> (r: Result<Self, ConfigError>)
        requires
            summable_pairs(layers@),
            forall|b: InitBound| b.denominator >= 1 ==> draw.requires((b,)),
        ensures
            layers@.len() == 0 <==> r == Err::<Self, ConfigError>(ConfigError::NoLayers),
            layers@.len() >= 1 ==> r is Ok,
            r is Ok ==> {
                let net = r->Ok_0;
                &&& net.wf()
                &&& net.shaped()
                &&& net.biases_filled(zero)
                &&& net.layers() == layers@
                &&& net.activation() == activation_function
                &&& forall|i: int, j: int|
                    0 <= i < layers@.len() - 1 && 0 <= j < layers@[i + 1] ==> #[trigger] net.biases(
                        i,
                    )[j] == zero
                &&& forall|i: int, r: int, c: int|
                    0 <= i < layers@.len() - 1 && 0 <= r < layers@[i] && 0 <= c < layers@[i + 1]
                        ==> call_ensures(
                        draw,
                        (init_method.spec_bound(layers@[i] as nat, layers@[i + 1] as nat),),
                        #[trigger] net.weights(i).rows[r][c],
                    )
            },
    {
        if layers.len() == 0 {
            return Err(ConfigError::NoLayers);
        }
        let n = layers.len();
        let mut sizes: Vec<usize> = Vec::new();
        let mut biases: Vec<Vec<W>> = Vec::new();
        let mut weights: Vec<Matrix<W>> = Vec::new();
        let mut k: usize = 0;
        while k < n
            invariant
                n == layers@.len() >= 1,
                k <= n,
                sizes@ =~= layers@.take(k as int),
            decreases n - k,
        {
            sizes.push(layers[k]);
            k = k + 1;
        }
        let mut i: usize = 0;
        while i + 1 < n
            invariant
                n == layers@.len() >= 1,
                summable_pairs(layers@),
                forall|b: InitBound| b.denominator >= 1 ==> draw.requires((b,)),
                i <= n - 1,
                weights.len() == i,
                biases.len() == i,
                forall|k: int|
                    0 <= k < i ==> {
                        &&& (#[trigger] weights[k]).wf()
                        &&& weights[k].rows.len() == layers@[k]
                        &&& weights[k].cols == layers@[k + 1]
                        &&& biases[k].len() == layers@[k + 1]
                    },
                forall|k: int, j: int|
                    0 <= k < i && 0 <= j < layers@[k + 1] ==> #[trigger] biases[k][j] == zero,
                forall|k: int, r: int, c: int|
                    0 <= k < i && 0 <= r < layers@[k] && 0 <= c < layers@[k + 1] ==> call_ensures(
                        draw,
                        (init_method.spec_bound(layers@[k] as nat, layers@[k + 1] as nat),),
                        #[trigger] weights[k].rows[r][c],
                    ),
            decreases n - i,
        {
            let n_in = layers[i];
            let n_out = layers[i + 1];
            assert(layers@[i as int] + layers@[i + 1] <= usize::MAX);
            let mut bias: Vec<W> = Vec::new();
            let mut j: usize = 0;
            while j < n_out
                invariant
                    j <= n_out,
                    bias.len() == j,
                    forall|t: int| 0 <= t < j ==> #[trigger] bias[t] == zero,
                decreases n_out - j,
            {
                bias.push(zero);
                j = j + 1;
            }
            let w = init_method.init_weights(n_in, n_out, &draw);
            biases.push(bias);
            weights.push(w);
            assert(weights[i as int].wf());
            assert(weights[i as int].rows.len() == layers@[i as int]);
            assert(biases[i as int].len() == layers@[i + 1]);
            i = i + 1;
        }
        let net = NeuralNet { layers: sizes, biases, weights, activation_function };
        assert(layers@.take(n as int) =~= layers@);
        proof {
            net.lemma_shape();
            assert forall|k: int| 0 <= k < net.layers().len() - 1 implies seq_filled(
                #[trigger] net.biases(k),
                zero,
            ) by {
                assert(net.biases(k) == net.biases[k]@);
                assert(net.weights(k).wf());
                assert(net.biases(k).len() == layers@[k + 1]);
                assert forall|j: int| 0 <= j < net.biases(k).len() implies #[trigger] net.biases(k)[j]
                    == zero by {
                    assert(net.biases[k][j] == zero);
                }
            }
        }
        Ok(net)
    }

    pub fn layer_sizes(&self) -> (r: &Vec<usize>)
        ensures
            r@ == self.layers(),
    {
        &self.layers
    }

    /// The number of weight matrices: one fewer than the layers.
    pub fn n_weight_layers(&self) -> (r: usize)
        requires
            self.wf(),
        ensures
            r == self.layers().len() - 1,
    {
        self.weights.len()
    }

    pub fn weight_matrix(&self, i: usize) -> (r: &Matrix<W>)
        requires
            self.wf(),
            i < self.layers().len() - 1,
        ensures
            *r == self.weights(i as int),
    {
        &self.weights[i]
    }

    pub fn bias_vector(&self, i: usize) -> (r: &Vec<W>)
        requires
            self.wf(),
            i < self.layers().len() - 1,
        ensures
            r@ == self.biases(i as int),
    {
        &self.biases[i]
    }

    /// `r` is what a forward pass of `input` through this network can give
    /// with the arithmetic `times`, `plus` and `activate`.
    pub open spec fn is_forward_pass<M: Fn(W, W) -> W, A: Fn(W, W) -> W, G: Fn(ActivationFunction, W) -> W>(
        &self,
        input: Matrix<W>,
        r: ForwardPass<W>,
        times: M,
        plus: A,
        activate: G,
    ) -> bool {
        &&& r.activations.len() == self.layers().len()
        &&& r.pre.len() == self.layers().len() - 1
        &&& forall|i: int|
            0 <= i < self.layers().len() ==> {
                &&& (#[trigger] r.activations[i]).wf()
                &&& r.activations[i].rows.len() == input.rows.len()
                &&& r.activations[i].cols == self.layers()[i]
            }
        &&& forall|i: int|
            0 <= i < self.layers().len() - 1 ==> {
                &&& (#[trigger] r.pre[i]).wf()
                &&& r.pre[i].rows.len() == input.rows.len()
                &&& r.pre[i].cols == self.layers()[i + 1]
            }
        &&& forall|k: int| 0 <= k < input.rows.len() ==> (#[trigger] r.activations[0].rows[k])@
            == input.rows[k]@
        &&& forall|i: int, k: int, c: int|
            0 <= i < self.layers().len() - 1 && 0 <= k < input.rows.len() && 0 <= c
                < self.layers()[i + 1] ==> call_ensures(
                activate,
                (self.activation(), r.pre[i].rows[k][c]),
                #[trigger] r.activations[i + 1].rows[k][c],
            )
        &&& forall|i: int, k: int, c: int|
            0 <= i < self.layers().len() - 1 && 0 <= k < input.rows.len() && 0 <= c
                < self.layers()[i + 1] ==> dot_rel(
                times,
                plus,
                r.activations[i].rows[k]@,
                column(self.weights(i), c),
                self.biases(i)[c],
                #[trigger] r.pre[i].rows[k][c],
            )
    }

    /// `deltas` are the errors that backpropagating `targets` through `pass`
    /// can give, with the arithmetic `times`, `plus`, `minus` and
    /// `derivative`.
    pub open spec fn are_deltas<
        M: Fn(W, W) -> W,
        A: Fn(W, W) -> W,
        S: Fn(W, W) -> W,
        D: Fn(ActivationFunction, W) -> W,
    >(
        &self,
        pass: ForwardPass<W>,
        targets: Matrix<W>,
        deltas: Seq<Matrix<W>>,
        zero: W,
        times: M,
        plus: A,
        minus: S,
        derivative: D,
    ) -> bool {
        &&& deltas.len() == self.layers().len() - 1
        &&& forall|i: int|
            0 <= i < self.layers().len() - 1 ==> {
                &&& (#[trigger] deltas[i]).wf()
                &&& deltas[i].rows.len() == targets.rows.len()
                &&& deltas[i].cols == self.layers()[i + 1]
            }
        &&& forall|r: int, c: int|
            self.layers().len() >= 2 && 0 <= r < targets.rows.len() && 0 <= c < targets.cols
                ==> output_delta_rel(
                times,
                minus,
                derivative,
                self.activation(),
                pass.activations[self.layers().len() - 1].rows[r][c],
                targets.rows[r][c],
                pass.pre[self.layers().len() - 2].rows[r][c],
                #[trigger] deltas[self.layers().len() - 2].rows[r][c],
            )
        &&& forall|i: int, r: int, c: int|
            0 <= i < self.layers().len() - 2 && 0 <= r < targets.rows.len() && 0 <= c
                < self.layers()[i + 1] ==> hidden_delta_rel(
                times,
                plus,
                derivative,
                self.activation(),
                zero,
                deltas[i + 1].rows[r]@,
                self.weights(i + 1).rows[c]@,
                pass.pre[i].rows[r][c],
                #[trigger] deltas[i].rows[r][c],
            )
    }

    /// Every bias of every layer is `z`.
    pub open spec fn biases_filled(&self, z: W) -> bool {
        forall|i: int| 0 <= i < self.layers().len() - 1 ==> seq_filled(#[trigger] self.biases(i), z)
    }

    /// Propagates a batch, one sample per row, through every layer:
    /// `pre[i] = activations[i] * weights(i) + biases(i)` and
    /// `activations[i + 1] = f(pre[i])`, with the caller's arithmetic and the
    /// network's activation `f`. The last activation, the output, has one
    /// row per input row and as many columns as the last layer. When every
    /// input and every bias is a value `z` that products and sums keep and
    /// `f` fixes (0 under ReLU), every layer is all `z`.
    pub fn forward<M: Fn(W, W) -> W, A: Fn(W, W) -> W, G: Fn(ActivationFunction, W) -> W>(
        &self,
        input: &Matrix<W>,
        times: &M,
        plus: &A,
        activate: &G,
    ) -> (r: ForwardPass<W>)
        requires
            self.wf(),
            input.wf(),
            input.cols == self.layers()[0],
            forall|a: W, b: W| times.requires((a, b)),
            forall|a: W, b: W| plus.requires((a, b)),
            forall|g: ActivationFunction, a: W| activate.requires((g, a)),
        ensures
            self.is_forward_pass(*input, r, *times, *plus, *activate),
            forall|z: W|
                #[trigger] keeps_zero(z, *times, *plus, *activate, self.activation()) && filled_with(
                    *input,
                    z,
                ) && self.biases_filled(z) ==> {
                    &&& forall|i: int|
                        0 <= i < self.layers().len() ==> filled_with(#[trigger] r.activations[i], z)
                    &&& forall|i: int|
                        0 <= i < self.layers().len() - 1 ==> filled_with(#[trigger] r.pre[i], z)
                },
    {
        let n = self.layers.len();
        let first = copy_matrix(input);
        assert(first.wf()) by {
            assert forall|k: int| 0 <= k < first.rows.len() implies (#[trigger] first.rows[k]).len()
                == first.cols by {
                assert(first.rows[k]@ == input.rows[k]@);
            }
        }
        assert forall|z: W| filled_with(*input, z) implies filled_with(first, z) by {
            assert forall|k: int, c: int|
                0 <= k < first.rows.len() && 0 <= c < first.rows[k].len() implies #[trigger] first.rows[k][c]
                == z by {
                assert(first.rows[k]@ == input.rows[k]@);
                assert(input.rows[k][c] == z);
            }
        }
        let mut activations: Vec<Matrix<W>> = Vec::new();
        let mut pre: Vec<Matrix<W>> = Vec::new();
        activations.push(first);
        let mut i: usize = 0;
        while i + 1 < n
            invariant
                self.wf(),
                n == self.layers().len(),
                input.wf(),
                input.cols == self.layers()[0],
                forall|a: W, b: W| times.requires((a, b)),
                forall|a: W, b: W| plus.requires((a, b)),
                forall|g: ActivationFunction, a: W| activate.requires((g, a)),
                i + 1 <= n,
                activations.len() == i + 1,
                pre.len() == i,
                forall|k: int| 0 <= k < input.rows.len() ==> (#[trigger] activations[0].rows[k])@
                    == input.rows[k]@,
                forall|j: int|
                    0 <= j <= i ==> {
                        &&& (#[trigger] activations[j]).wf()
                        &&& activations[j].rows.len() == input.rows.len()
                        &&& activations[j].cols == self.layers()[j]
                    },
                forall|j: int|
                    0 <= j < i ==> {
                        &&& (#[trigger] pre[j]).wf()
                        &&& pre[j].rows.len() == input.rows.len()
                        &&& pre[j].cols == self.layers()[j + 1]
                    },
                forall|j: int, k: int, c: int|
                    0 <= j < i && 0 <= k < input.rows.len() && 0 <= c < self.layers()[j + 1]
                        ==> call_ensures(
                        *activate,
                        (self.activation(), pre[j].rows[k][c]),
                        #[trigger] activations[j + 1].rows[k][c],
                    ),
                forall|j: int, k: int, c: int|
                    0 <= j < i && 0 <= k < input.rows.len() && 0 <= c < self.layers()[j + 1]
                        ==> dot_rel(
                        *times,
                        *plus,
                        activations[j].rows[k]@,
                        column(self.weights[j], c),
                        self.biases[j]@[c],
                        #[trigger] pre[j].rows[k][c],
                    ),
                forall|z: W|
                    #[trigger] keeps_zero(z, *times, *plus, *activate, self.activation())
                        && filled_with(*input, z) && self.biases_filled(z) ==> {
                        &&& forall|j: int| 0 <= j <= i ==> filled_with(#[trigger] activations[j], z)
                        &&& forall|j: int| 0 <= j < i ==> filled_with(#[trigger] pre[j], z)
                    },
            decreases n - i,
        {
            let (p, a) = layer_forward(
                &activations[i],
                &self.weights[i],
                &self.biases[i],
                self.activation_function,
                times,
                plus,
                activate,
            );
            proof {
                assert forall|z: W|
                    #[trigger] keeps_zero(z, *times, *plus, *activate, self.activation())
                        && filled_with(*input, z) && self.biases_filled(z) implies filled_with(p, z)
                    && filled_with(a, z) by {
                    assert(filled_with(activations[i as int], z));
                    assert(seq_filled(self.biases(i as int), z));
                    assert(keeps_zero(z, *times, *plus, *activate, self.activation_function));
                }
            }
            pre.push(p);
            activations.push(a);
            i = i + 1;
        }
        ForwardPass { pre, activations }
    }

    /// `pass` holds, for a batch of `batch` rows, one activation per layer and
    /// one pre-activation per layer after the input, each shaped by its layer.
    pub open spec fn pass_fits(&self, pass: ForwardPass<W>, batch: nat) -> bool {
        let l = self.layers();
        &&& pass.activations.len() == l.len()
        &&& pass.pre.len() == l.len() - 1
        &&& forall|i: int|
            0 <= i < l.len() ==> {
                &&& (#[trigger] pass.activations[i]).wf()
                &&& pass.activations[i].rows.len() == batch
                &&& pass.activations[i].cols == l[i]
            }
        &&& forall|i: int|
            0 <= i < l.len() - 1 ==> {
                &&& (#[trigger] pass.pre[i]).wf()
                &&& pass.pre[i].rows.len() == batch
                &&& pass.pre[i].cols == l[i + 1]
            }
    }

    /// The error of every layer after the input for one batch, from the
    /// output back: at the output `(a - t) * f'(pre)`, below it
    /// `(next * W^T) * f'(pre)` with `next` the error of the layer above and
    /// `W` the weights into it. `deltas[i]` belongs to `pass.pre[i]`.
    pub fn backward<
        M: Fn(W, W) -> W,
        A: Fn(W, W) -> W,
        S: Fn(W, W) -> W,
        D: Fn(ActivationFunction, W) -> W,
    >(
        &self,
        pass: &ForwardPass<W>,
        targets: &Matrix<W>,
        zero: W,
        times: &M,
        plus: &A,
        minus: &S,
        derivative: &D,
    ) -> (deltas: Vec<Matrix<W>>)
        requires
            self.wf(),
            self.pass_fits(*pass, targets.rows.len() as nat),
            targets.wf(),
            targets.cols == self.layers().last(),
            forall|x: W, y: W| times.requires((x, y)),
            forall|x: W, y: W| plus.requires((x, y)),
            forall|x: W, y: W| minus.requires((x, y)),
            forall|g: ActivationFunction, x: W| derivative.requires((g, x)),
        ensures
            self.are_deltas(*pass, *targets, deltas@, zero, *times, *plus, *minus, *derivative),
    {
        let n = self.layers.len();
        if n < 2 {
            return Vec::new();
        }
        let last = n - 2;
        let ghost batch = targets.rows.len();
        let f = self.activation_function;
        let out = output_delta(
            &pass.activations[n - 1],
            targets,
            &pass.pre[last],
            f,
            times,
            minus,
            derivative,
        );
        let mut rev: Vec<Matrix<W>> = Vec::new();
        rev.push(out);
        let mut i: usize = last;
        while i > 0
            invariant
                self.wf(),
                n == self.layers().len() >= 2,
                last == n - 2,
                f == self.activation(),
                self.pass_fits(*pass, batch as nat),
                batch == targets.rows.len(),
                forall|x: W, y: W| times.requires((x, y)),
                forall|x: W, y: W| plus.requires((x, y)),
                forall|g: ActivationFunction, x: W| derivative.requires((g, x)),
                i <= last,
                rev.len() == last - i + 1,
                forall|j: int|
                    0 <= j < rev.len() ==> {
                        &&& (#[trigger] rev[j]).wf()
                        &&& rev[j].rows.len() == batch
                        &&& rev[j].cols == self.layers()[last - j + 1]
                    },
                forall|r: int, c: int|
                    0 <= r < targets.rows.len() && 0 <= c < targets.cols ==> output_delta_rel(
                        *times,
                        *minus,
                        *derivative,
                        f,
                        pass.activations[n - 1].rows[r][c],
                        targets.rows[r][c],
                        pass.pre[last as int].rows[r][c],
                        #[trigger] rev[0].rows[r][c],
                    ),
                forall|j: int, r: int, c: int|
                    1 <= j < rev.len() && 0 <= r < batch && 0 <= c < self.layers()[last - j + 1]
                        ==> hidden_delta_rel(
                        *times,
                        *plus,
                        *derivative,
                        f,
                        zero,
                        rev[j - 1].rows[r]@,
                        self.weights(last - j + 1).rows[c]@,
                        pass.pre[last - j].rows[r][c],
                        #[trigger] rev[j].rows[r][c],
                    ),
            decreases i,
        {
            let h = hidden_delta(
                &rev[last - i],
                &self.weights[i],
                &pass.pre[i - 1],
                f,
                zero,
                times,
                plus,
                derivative,
            );
            rev.push(h);
            i = i - 1;
        }
        let ghost full = rev@;
        let mut deltas: Vec<Matrix<W>> = Vec::new();
        while rev.len() > 0
            invariant
                full.len() == last + 1,
                forall|j: int|
                    0 <= j < full.len() ==> {
                        &&& (#[trigger] full[j]).wf()
                        &&& full[j].rows.len() == batch
                        &&& full[j].cols == self.layers()[last - j + 1]
                    },
                forall|r: int, c: int|
                    0 <= r < targets.rows.len() && 0 <= c < targets.cols ==> output_delta_rel(
                        *times,
                        *minus,
                        *derivative,
                        f,
                        pass.activations[n - 1].rows[r][c],
                        targets.rows[r][c],
                        pass.pre[last as int].rows[r][c],
                        #[trigger] full[0].rows[r][c],
                    ),
                forall|j: int, r: int, c: int|
                    1 <= j < full.len() && 0 <= r < batch && 0 <= c < self.layers()[last - j + 1]
                        ==> hidden_delta_rel(
                        *times,
                        *plus,
                        *derivative,
                        f,
                        zero,
                        full[j - 1].rows[r]@,
                        self.weights(last - j + 1).rows[c]@,
                        pass.pre[last - j].rows[r][c],
                        #[trigger] full[j].rows[r][c],
                    ),
                rev@ == full.take(rev.len() as int),
                deltas.len() + rev.len() == full.len(),
                forall|k: int| 0 <= k < deltas.len() ==> #[trigger] deltas[k] == full[last - k],
            decreases rev.len(),
        {
            let m = rev.pop().unwrap();
            proof {
                assert(full.take(rev.len() + 1).last() == full[rev.len() as int]);
                assert(full.take(rev.len() + 1).drop_last() =~= full.take(rev.len() as int));
            }
            deltas.push(m);
        }
        proof {
            assert forall|i: int|
                0 <= i < self.layers().len() - 1 implies {
                &&& (#[trigger] deltas[i]).wf()
                &&& deltas[i].rows.len() == targets.rows.len()
                &&& deltas[i].cols == self.layers()[i + 1]
            } by {
                assert(deltas[i] == full[last - i]);
            }
            assert(deltas[last as int] == full[0]);
            assert forall|i: int, r: int, c: int|
                0 <= i < self.layers().len() - 2 && 0 <= r < targets.rows.len() && 0 <= c
                    < self.layers()[i + 1] implies hidden_delta_rel(
                *times,
                *plus,
                *derivative,
                self.activation(),
                zero,
                deltas[i + 1].rows[r]@,
                self.weights(i + 1).rows[c]@,
                pass.pre[i].rows[r][c],
                #[trigger] deltas[i].rows[r][c],
            ) by {
                let j = last - i;
                assert(deltas[i] == full[j]);
                assert(deltas[i + 1] == full[j - 1]);
                assert(full[j].rows[r][c] == deltas[i].rows[r][c]);
            }
        }
        deltas
    }

    /// `next` is this network after one descent step on `pass` and its errors
    /// `deltas`: each weight moved through `descend` by the batch sum of
    /// input activation times error, each bias by the batch sum of errors.
    pub open spec fn is_descent_step<M: Fn(W, W) -> W, A: Fn(W, W) -> W, U: Fn(W, W, usize) -> W>(
        &self,
        next: NeuralNet<W>,
        pass: ForwardPass<W>,
        deltas: Seq<Matrix<W>>,
        zero: W,
        times: M,
        plus: A,
        descend: U,
    ) -> bool {
        &&& next.wf()
        &&& next.layers() == self.layers()
        &&& next.activation() == self.activation()
        &&& forall|i: int, a: int, c: int|
            0 <= i < self.layers().len() - 1 && 0 <= a < self.layers()[i] && 0 <= c
                < self.layers()[i + 1] ==> weight_step_rel(
                times,
                plus,
                descend,
                zero,
                column(pass.activations[i], a),
                column(deltas[i], c),
                self.weights(i).rows[a][c],
                #[trigger] next.weights(i).rows[a][c],
            )
        &&& forall|i: int, c: int|
            0 <= i < self.layers().len() - 1 && 0 <= c < self.layers()[i + 1] ==> bias_step_rel(
                plus,
                descend,
                zero,
                column(deltas[i], c),
                self.biases(i)[c],
                #[trigger] next.biases(i)[c],
            )
    }

    /// Moves every weight and bias one descent step, from the activations of
    /// `pass` and the errors `deltas` of one batch; all gradients are taken
    /// before any parameter changes.
    pub fn apply_gradients<M: Fn(W, W) -> W, A: Fn(W, W) -> W, U: Fn(W, W, usize) -> W>(
        &mut self,
        pass: &ForwardPass<W>,
        deltas: &Vec<Matrix<W>>,
        zero: W,
        times: &M,
        plus: &A,
        descend: &U,
    )
        requires
            old(self).wf(),
            old(self).pass_fits(*pass, pass.activations[0].rows.len() as nat),
            deltas.len() == old(self).layers().len() - 1,
            forall|i: int|
                0 <= i < old(self).layers().len() - 1 ==> {
                    &&& (#[trigger] deltas[i]).wf()
                    &&& deltas[i].rows.len() == pass.activations[0].rows.len()
                    &&& deltas[i].cols == old(self).layers()[i + 1]
                },
            forall|x: W, y: W| times.requires((x, y)),
            forall|x: W, y: W| plus.requires((x, y)),
            forall|x: W, y: W, n: usize| descend.requires((x, y, n)),
        ensures
            old(self).is_descent_step(*final(self), *pass, deltas@, zero, *times, *plus, *descend),
    {
        let n = self.layers.len();
        let ghost batch = pass.activations[0].rows.len();
        let mut new_weights: Vec<Matrix<W>> = Vec::new();
        let mut new_biases: Vec<Vec<W>> = Vec::new();
        let mut i: usize = 0;
        while i + 1 < n
            invariant
                *self == *old(self),
                self.wf(),
                n == self.layers().len(),
                self.pass_fits(*pass, batch as nat),
                deltas.len() == n - 1,
                forall|k: int|
                    0 <= k < n - 1 ==> {
                        &&& (#[trigger] deltas[k]).wf()
                        &&& deltas[k].rows.len() == batch
                        &&& deltas[k].cols == self.layers()[k + 1]
                    },
                forall|x: W, y: W| times.requires((x, y)),
                forall|x: W, y: W| plus.requires((x, y)),
                forall|x: W, y: W, n: usize| descend.requires((x, y, n)),
                i <= n - 1,
                new_weights.len() == i,
                new_biases.len() == i,
                forall|k: int|
                    0 <= k < i ==> {
                        &&& (#[trigger] new_weights[k]).wf()
                        &&& new_weights[k].rows.len() == self.layers()[k]
                        &&& new_weights[k].cols == self.layers()[k + 1]
                        &&& new_biases[k].len() == self.layers()[k + 1]
                    },
                forall|k: int, a: int, c: int|
                    0 <= k < i && 0 <= a < self.layers()[k] && 0 <= c < self.layers()[k + 1]
                        ==> weight_step_rel(
                        *times,
                        *plus,
                        *descend,
                        zero,
                        column(pass.activations[k], a),
                        column(deltas[k], c),
                        self.weights(k).rows[a][c],
                        #[trigger] new_weights[k].rows[a][c],
                    ),
                forall|k: int, c: int|
                    0 <= k < i && 0 <= c < self.layers()[k + 1] ==> bias_step_rel(
                        *plus,
                        *descend,
                        zero,
                        column(deltas[k], c),
                        self.biases(k)[c],
                        #[trigger] new_biases[k][c],
                    ),
            decreases n - i,
        {
            let (w2, b2) = step_layer(
                &self.weights[i],
                &self.biases[i],
                &pass.activations[i],
                &deltas[i],
                zero,
                times,
                plus,
                descend,
            );
            new_weights.push(w2);
            new_biases.push(b2);
            i = i + 1;
        }
        self.weights = new_weights;
        self.biases = new_biases;
    }

    /// One step of mini-batch gradient descent on a batch of `input` rows and
    /// their `targets`: a forward pass, the errors of every layer, then the
    /// update of every parameter. Returns the pass and the errors.
    pub fn train_batch<
        M: Fn(W, W) -> W,
        A: Fn(W, W) -> W,
        S: Fn(W, W) -> W,
        G: Fn(ActivationFunction, W) -> W,
        D: Fn(ActivationFunction, W) -> W,
        U: Fn(W, W, usize) -> W,
    >(
        &mut self,
        input: &Matrix<W>,
        targets: &Matrix<W>,
        zero: W,
        times: &M,
        plus: &A,
        minus: &S,
        activate: &G,
        derivative: &D,
        descend: &U,
    ) -> (r: (ForwardPass<W>, Vec<Matrix<W>>))
        requires
            old(self).wf(),
            input.wf(),
            input.cols == old(self).layers()[0],
            targets.wf(),
            targets.rows.len() == input.rows.len(),
            targets.cols == old(self).layers().last(),
            forall|x: W, y: W| times.requires((x, y)),
            forall|x: W, y: W| plus.requires((x, y)),
            forall|x: W, y: W| minus.requires((x, y)),
            forall|g: ActivationFunction, x: W| activate.requires((g, x)),
            forall|g: ActivationFunction, x: W| derivative.requires((g, x)),
            forall|x: W, y: W, n: usize| descend.requires((x, y, n)),
        ensures
            old(self).is_forward_pass(*input, r.0, *times, *plus, *activate),
            old(self).are_deltas(r.0, *targets, r.1@, zero, *times, *plus, *minus, *derivative),
            old(self).is_descent_step(*final(self), r.0, r.1@, zero, *times, *plus, *descend),
    {
        let pass = self.forward(input, times, plus, activate);
        let deltas = self.backward(&pass, targets, zero, times, plus, minus, derivative);
        self.apply_gradients(&pass, &deltas, zero, times, plus, descend);
        (pass, deltas)
    }

    pub fn activation_function(&self) -> (r: ActivationFunction)
        ensures
            r == self.activation(),
    {
        self.activation_function
    }
}

} // verus!
