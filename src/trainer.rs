//! One epoch of mini-batch gradient descent over a data loader.
use vstd::prelude::*;

use crate::dataset::Dataset;
use crate::loader::{is_pass_order, pass_sizes, rows_match, window_end, DataLoader};
use crate::matrix::Matrix;
use crate::neural_net::{ActivationFunction, NeuralNet};
use crate::propagation::ForwardPass;

verus! {

/// One batch of an epoch: its input rows, its target rows, and the network's
/// output on the inputs before the step that the batch drove.
#[derive(Debug, Clone)]
pub struct TrainedBatch<W> {
    pub inputs: Matrix<W>,
    pub targets: Matrix<W>,
    pub output: Matrix<W>,
}

/// Where batch `k` of a pass over `n` samples in windows of `b` starts.
pub open spec fn window_start(k: nat, b: nat, n: nat) -> nat
    decreases k,
{
    if k == 0 {
        0
    } else {
        window_end(window_start((k - 1) as nat, b, n), b, n)
    }
}

/// `after` is `before` after one descent step on `batch`: the output is what
/// a forward pass of the inputs can give, and the step follows from that pass
/// and the errors that backpropagating the targets can give.
pub open spec fn trained_on<
    W: Copy,
    M: Fn(W, W) -> W,
    A: Fn(W, W) -> W,
    S: Fn(W, W) -> W,
    G: Fn(ActivationFunction, W) -> W,
    Dv: Fn(ActivationFunction, W) -> W,
    U: Fn(W, W, usize) -> W,
>(
    before: NeuralNet<W>,
    after: NeuralNet<W>,
    batch: TrainedBatch<W>,
    zero: W,
    times: M,
    plus: A,
    minus: S,
    activate: G,
    derivative: Dv,
    descend: U,
) -> bool {
    exists|pass: ForwardPass<W>, deltas: Seq<Matrix<W>>|
        before.is_forward_pass(batch.inputs, pass, times, plus, activate) && batch.output
            == pass.activations@.last() && before.are_deltas(
            pass,
            batch.targets,
            deltas,
            zero,
            times,
            plus,
            minus,
            derivative,
        ) && #[trigger] before.is_descent_step(after, pass, deltas, zero, times, plus, descend)
}

/// `batches` is one epoch over `loader`'s pass in `order`, and `nets` the
/// network before each batch and after the last: batch `k` holds the window
/// `k` of the pass, and took the network from `nets[k]` to `nets[k + 1]`.
pub open spec fn epoch_trace<
    W: Copy,
    D: Dataset<W>,
    M: Fn(W, W) -> W,
    A: Fn(W, W) -> W,
    S: Fn(W, W) -> W,
    G: Fn(ActivationFunction, W) -> W,
    Dv: Fn(ActivationFunction, W) -> W,
    U: Fn(W, W, usize) -> W,
>(
    loader: DataLoader<W, D>,
    batches: Seq<TrainedBatch<W>>,
    nets: Seq<NeuralNet<W>>,
    order: Seq<usize>,
    zero: W,
    times: M,
    plus: A,
    minus: S,
    activate: G,
    derivative: Dv,
    descend: U,
) -> bool {
    let n = loader.samples().len();
    let b = loader.spec_batch_size();
    &&& is_pass_order(order, n, loader.spec_shuffle(), loader.spec_seed())
    &&& batches.len() == pass_sizes(0, b, n).len()
    &&& nets.len() == batches.len() + 1
    &&& forall|k: int|
        0 <= k < batches.len() ==> {
            let start = window_start(k as nat, b, n);
            let end = window_end(start, b, n);
            &&& rows_match((#[trigger] batches[k]).inputs.rows@, loader.samples(), order, start as int, end as int, false)
            &&& rows_match(batches[k].targets.rows@, loader.samples(), order, start as int, end as int, true)
            &&& trained_on(nets[k], nets[k + 1], batches[k], zero, times, plus, minus, activate, derivative, descend)
        }
}

/// Trains `net` on one fresh pass of `loader`, one descent step per batch in
/// the pass's order, with the caller's arithmetic. Returns each batch with the
/// network's output on it before its step, so that the caller can measure
/// the loss. Every sample is trained on exactly once.
pub fn train_epoch<
    W: Copy,
    D: Dataset<W>,
    M: Fn(W, W) -> W,
    A: Fn(W, W) -> W,
    S: Fn(W, W) -> W,
    G: Fn(ActivationFunction, W) -> W,
    Dv: Fn(ActivationFunction, W) -> W,
    U: Fn(W, W, usize) -> W,
>(
    net: &mut NeuralNet<W>,
    loader: &DataLoader<W, D>,
    zero: W,
    times: &M,
    plus: &A,
    minus: &S,
    activate: &G,
    derivative: &Dv,
    descend: &U,
) -> (r: Vec<TrainedBatch<W>>)
    requires
        old(net).wf(),
        loader.wf(),
        loader.samples().len() > 0 ==> loader.samples()[0].inputs.len() == old(net).layers()[0]
            && loader.samples()[0].expected.len() == old(net).layers().last(),
        forall|x: W, y: W| times.requires((x, y)),
        forall|x: W, y: W| plus.requires((x, y)),
        forall|x: W, y: W| minus.requires((x, y)),
        forall|g: ActivationFunction, x: W| activate.requires((g, x)),
        forall|g: ActivationFunction, x: W| derivative.requires((g, x)),
        forall|x: W, y: W, n: usize| descend.requires((x, y, n)),
    ensures
        final(net).wf(),
        final(net).layers() == old(net).layers(),
        final(net).activation() == old(net).activation(),
        r.len() == pass_sizes(0, loader.spec_batch_size(), loader.samples().len()).len(),
        forall|k: int|
            0 <= k < r.len() ==> {
                &&& (#[trigger] r[k]).output.wf()
                &&& r[k].targets.wf()
                &&& r[k].output.rows.len() == pass_sizes(
                    0,
                    loader.spec_batch_size(),
                    loader.samples().len(),
                )[k]
                &&& r[k].targets.rows.len() == r[k].output.rows.len()
                &&& r[k].output.cols == old(net).layers().last()
                &&& r[k].targets.cols == old(net).layers().last()
            },
        exists|nets: Seq<NeuralNet<W>>, order: Seq<usize>|
            #[trigger] epoch_trace(
                *loader,
                r@,
                nets,
                order,
                zero,
                *times,
                *plus,
                *minus,
                *activate,
                *derivative,
                *descend,
            ) && nets[0] == *old(net) && nets.last() == *final(net),
{
    let mut it = loader.batches();
    proof {
        it.lemma_shape();
    }
    let ghost sizes = it.remaining();
    let ghost layers = net.layers();
    let ghost order = it.order();
    let ghost n = loader.samples().len();
    let ghost b = loader.spec_batch_size();
    let ghost mut nets: Seq<NeuralNet<W>> = seq![*net];
    let mut results: Vec<TrainedBatch<W>> = Vec::new();
    loop
        invariant
            it.wf(),
            net.wf(),
            net.layers() == layers,
            layers == old(net).layers(),
            net.activation() == old(net).activation(),
            it.samples() == loader.samples(),
            it.spec_batch_size() == loader.spec_batch_size(),
            it.order() == order,
            n == loader.samples().len(),
            b == loader.spec_batch_size(),
            is_pass_order(order, n, loader.spec_shuffle(), loader.spec_seed()),
            it.pos() == window_start(results.len() as nat, b, n),
            it.samples().len() > 0 ==> it.samples()[0].inputs.len() == layers[0]
                && it.samples()[0].expected.len() == layers.last(),
            sizes == pass_sizes(0, loader.spec_batch_size(), loader.samples().len()),
            sizes == Seq::new(results.len() as nat, |k: int| results[k].output.rows.len() as nat)
                + it.remaining(),
            nets.len() == results.len() + 1,
            nets[0] == *old(net),
            nets.last() == *net,
            forall|k: int|
                0 <= k < results.len() ==> {
                    &&& (#[trigger] results[k]).output.wf()
                    &&& results[k].targets.wf()
                    &&& results[k].targets.rows.len() == results[k].output.rows.len()
                    &&& results[k].output.cols == layers.last()
                    &&& results[k].targets.cols == layers.last()
                    &&& rows_match(
                        results[k].inputs.rows@,
                        loader.samples(),
                        order,
                        window_start(k as nat, b, n) as int,
                        window_end(window_start(k as nat, b, n), b, n) as int,
                        false,
                    )
                    &&& rows_match(
                        results[k].targets.rows@,
                        loader.samples(),
                        order,
                        window_start(k as nat, b, n) as int,
                        window_end(window_start(k as nat, b, n), b, n) as int,
                        true,
                    )
                    &&& trained_on(
                        nets[k],
                        nets[k + 1],
                        results[k],
                        zero,
                        *times,
                        *plus,
                        *minus,
                        *activate,
                        *derivative,
                        *descend,
                    )
                },
            forall|x: W, y: W| times.requires((x, y)),
            forall|x: W, y: W| plus.requires((x, y)),
            forall|x: W, y: W| minus.requires((x, y)),
            forall|g: ActivationFunction, x: W| activate.requires((g, x)),
            forall|g: ActivationFunction, x: W| derivative.requires((g, x)),
            forall|x: W, y: W, n: usize| descend.requires((x, y, n)),
        ensures
            it.remaining().len() == 0,
        decreases it.order().len() - it.pos(),
    {
        proof {
            it.lemma_shape();
        }
        match it.next() {
            None => {
                break;
            },
            Some((inputs, targets)) => {
                let ghost k = results.len();
                let ghost before_sizes = Seq::new(
                    results.len() as nat,
                    |j: int| results[j].output.rows.len() as nat,
                );
                let ghost before = *net;
                let (pass, deltas) = net.train_batch(
                    &inputs,
                    &targets,
                    zero,
                    times,
                    plus,
                    minus,
                    activate,
                    derivative,
                    descend,
                );
                let ghost gpass = pass;
                let ghost gdeltas = deltas@;
                let ghost ln = layers.len();
                let ghost last_act = pass.activations[ln - 1];
                assert(last_act.wf());
                assert(last_act.cols == layers[ln - 1]);
                let mut acts = pass.activations;
                let out = acts.pop().unwrap();
                assert(out == last_act);
                let batch = TrainedBatch { inputs, targets, output: out };
                proof {
                    assert(before.is_descent_step(
                        *net,
                        gpass,
                        gdeltas,
                        zero,
                        *times,
                        *plus,
                        *descend,
                    ));
                    assert(batch.output == gpass.activations@.last());
                    assert(trained_on(
                        before,
                        *net,
                        batch,
                        zero,
                        *times,
                        *plus,
                        *minus,
                        *activate,
                        *derivative,
                        *descend,
                    ));
                    nets = nets.push(*net);
                }
                results.push(batch);
                assert(Seq::new(results.len() as nat, |j: int| results[j].output.rows.len() as nat)
                    =~= before_sizes.push(results[k as int].output.rows.len() as nat));
            },
        }
    }
    assert(sizes =~= Seq::new(results.len() as nat, |k: int| results[k].output.rows.len() as nat));
    proof {
        assert forall|k: int| 0 <= k < results@.len() implies {
            let start = window_start(k as nat, b, n);
            let end = window_end(start, b, n);
            &&& rows_match((#[trigger] results@[k]).inputs.rows@, loader.samples(), order, start as int, end as int, false)
            &&& rows_match(results@[k].targets.rows@, loader.samples(), order, start as int, end as int, true)
            &&& trained_on(nets[k], nets[k + 1], results@[k], zero, *times, *plus, *minus, *activate, *derivative, *descend)
        } by {
            assert(results@[k] == results[k]);
        }
        assert(epoch_trace(
            *loader,
            results@,
            nets,
            order,
            zero,
            *times,
            *plus,
            *minus,
            *activate,
            *derivative,
            *descend,
        ));
    }
    results
}

} // verus!
