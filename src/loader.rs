//! Turns a dataset into a pass of fixed-size batches, optionally shuffled.
use std::marker::PhantomData;

use rand::seq::SliceRandom;
use rand::SeedableRng;
use vstd::prelude::*;

use crate::config::ConfigError;
use crate::dataset::Dataset;
use crate::matrix::{copy_row, Matrix};
use crate::sample::{uniform_samples, Sample};

verus! {

broadcast use vstd::seq_lib::group_to_multiset_ensures;

/// The order in which rand's shuffle, driven by a ChaCha12 generator seeded
/// with `seed`, leaves `items`.
pub uninterp spec fn seeded_shuffle(items: Seq<usize>, seed: u64) -> Seq<usize>;

/// Relies on rand's `SliceRandom::shuffle` with rand_chacha's `ChaCha12Rng`
/// from `SeedableRng::seed_from_u64`: the slice is permuted, and the order
/// depends on its contents and the seed alone.
#[verifier::external_body]
fn shuffle_seeded(items: &mut Vec<usize>, seed: u64)
    ensures
        final(items)@ == seeded_shuffle(old(items)@, seed),
        final(items)@.to_multiset() == old(items)@.to_multiset(),
{
    let mut rng = rand_chacha::ChaCha12Rng::seed_from_u64(seed);
    items.shuffle(&mut rng);
}

/// Relies on rand's `SliceRandom::shuffle` with the thread-local generator
/// `rand::rng()`: the slice is permuted, in an order that nothing fixes.
#[verifier::external_body]
fn shuffle_unseeded(items: &mut Vec<usize>)
    ensures
        final(items)@.to_multiset() == old(items)@.to_multiset(),
{
    let mut rng = rand::rng();
    items.shuffle(&mut rng);
}

/// `0, 1, ..., n - 1`.
pub open spec fn identity_order(n: nat) -> Seq<usize> {
    Seq::new(n, |i: int| i as usize)
}

/// Every entry of `order` indexes one of `n` samples.
pub open spec fn indexes_within(order: Seq<usize>, n: nat) -> bool {
    forall|i: int| 0 <= i < order.len() ==> (#[trigger] order[i]) < n
}

/// Where the batch that starts at `pos` ends.
pub open spec fn window_end(pos: nat, b: nat, n: nat) -> nat {
    if pos + b < n {
        pos + b
    } else {
        n
    }
}

/// The sizes of the batches that a pass over `n` samples in windows of `b`
/// yields from position `pos` on.
pub open spec fn pass_sizes(pos: nat, b: nat, n: nat) -> Seq<nat>
    decreases n - pos,
{
    if pos >= n || b == 0 {
        Seq::empty()
    } else {
        seq![(window_end(pos, b, n) - pos) as nat] + pass_sizes(window_end(pos, b, n), b, n)
    }
}

pub open spec fn total(s: Seq<nat>) -> nat
    decreases s.len(),
{
    if s.len() == 0 {
        0
    } else {
        s[0] + total(s.drop_first())
    }
}

/// Rows of a batch: what `pick` gives for each sample that the window of
/// `order` from `pos` to `end` names.
pub open spec fn rows_match<T>(
    rows: Seq<Vec<T>>,
    samples: Seq<Sample<T>>,
    order: Seq<usize>,
    pos: int,
    end: int,
    targets: bool,
) -> bool {
    &&& rows.len() == end - pos
    &&& forall|i: int|
        0 <= i < end - pos ==> (#[trigger] rows[i])@ == if targets {
            samples[order[pos + i] as int].expected@
        } else {
            samples[order[pos + i] as int].inputs@
        }
}

/// In one pass over `n` samples in windows of `b`, starting at `pos`, the
/// batch sizes add up to the samples left; each is between 1 and `b`, and only
/// the last may be smaller than `b`.
pub proof fn lemma_pass_partitions(pos: nat, b: nat, n: nat)
    requires
        b >= 1,
        pos <= n,
    ensures
        total(pass_sizes(pos, b, n)) == n - pos,
        forall|k: int|
            0 <= k < pass_sizes(pos, b, n).len() ==> 1 <= #[trigger] pass_sizes(pos, b, n)[k] <= b,
        forall|k: int|
            0 <= k < pass_sizes(pos, b, n).len() - 1 ==> #[trigger] pass_sizes(pos, b, n)[k] == b,
    decreases n - pos,
{
    if pos < n {
        let e = window_end(pos, b, n);
        lemma_pass_partitions(e, b, n);
        let s = pass_sizes(pos, b, n);
        let rest = pass_sizes(e, b, n);
        assert(s.drop_first() =~= rest);
        assert forall|k: int| 0 <= k < s.len() implies 1 <= #[trigger] s[k] <= b by {
            if k > 0 {
                assert(s[k] == rest[k - 1]);
            }
        }
        assert forall|k: int| 0 <= k < s.len() - 1 implies #[trigger] s[k] == b by {
            if k > 0 {
                assert(s[k] == rest[k - 1]);
            } else {
                assert(rest.len() >= 1);
                assert(e < n);
            }
        }
    }
}

/// `order` is an order in which a pass over `n` samples may visit them:
/// each sample exactly once; the dataset order when not shuffling; the order
/// fixed by the seed when shuffling with one.
pub open spec fn is_pass_order(order: Seq<usize>, n: nat, shuffle: bool, seed: Option<u64>) -> bool {
    &&& order.len() == n
    &&& order.to_multiset() == identity_order(n).to_multiset()
    &&& indexes_within(order, n)
    &&& !shuffle ==> order == identity_order(n)
    &&& (shuffle && seed is Some) ==> order == seeded_shuffle(identity_order(n), seed->0)
}

/// Batches a dataset that it owns.
#[derive(Debug)]
pub struct DataLoader<T, D: Dataset<T>> {
    dataset: D,
    batch_size: usize,
    shuffle: bool,
    seed: Option<u64>,
    element: PhantomData<T>,
}

impl<T: Copy, D: Dataset<T>> DataLoader<T, D> {
    pub closed spec fn samples(&self) -> Seq<Sample<T>> {
        self.dataset.samples()
    }

    pub closed spec fn spec_batch_size(&self) -> nat {
        self.batch_size as nat
    }

    pub closed spec fn spec_shuffle(&self) -> bool {
        self.shuffle
    }

    pub closed spec fn spec_seed(&self) -> Option<u64> {
        self.seed
    }

    pub closed spec fn wf(&self) -> bool {
        self.batch_size >= 1 && uniform_samples(self.dataset.samples())
    }

    /// A loader over `dataset`; a batch size of zero is refused.
    pub fn new(dataset: D, batch_size: usize, shuffle: bool, seed: Option<u64>) -> (r: Result<
        Self,
        ConfigError,
    >)
        requires
            uniform_samples(dataset.samples()),
        ensures
            batch_size == 0 <==> r == Err::<Self, ConfigError>(ConfigError::ZeroBatchSize),
            batch_size >= 1 ==> r is Ok,
            r is Ok ==> {
                let l = r->Ok_0;
                &&& l.wf()
                &&& l.samples() == dataset.samples()
                &&& l.spec_batch_size() == batch_size
                &&& l.spec_shuffle() == shuffle
                &&& l.spec_seed() == seed
            },
    {
        if batch_size == 0 {
            return Err(ConfigError::ZeroBatchSize);
        }
        Ok(DataLoader { dataset, batch_size, shuffle, seed, element: PhantomData })
    }

    /// Length of the first sample's inputs; 0 for an empty dataset.
    pub fn input_size(&self) -> (r: usize)
        ensures
            r == if self.samples().len() > 0 {
                self.samples()[0].inputs.len()
            } else {
                0
            },
    {
        match self.dataset.get(0) {
            Some(s) => s.input_size(),
            None => 0,
        }
    }

    /// Length of the first sample's target; 0 for an empty dataset.
    pub fn output_size(&self) -> (r: usize)
        ensures
            r == if self.samples().len() > 0 {
                self.samples()[0].expected.len()
            } else {
                0
            },
    {
        match self.dataset.get(0) {
            Some(s) => s.output_size(),
            None => 0,
        }
    }

    /// A fresh pass over the dataset, reshuffled if the loader shuffles.
    pub fn batches(&self) -> (r: BatchIter<'_, T, D>)
        requires
            self.wf(),
        ensures
            r.wf(),
            r.is_fresh_pass_of(self),
            is_pass_order(r.order(), self.samples().len(), self.spec_shuffle(), self.spec_seed()),
    {
        let r = BatchIter::new(self);
        proof {
            r.lemma_shape();
        }
        r
    }
}

/// One pass over a dataset, batch by batch.
pub struct BatchIter<'a, T, D: Dataset<T>> {
    dataset: &'a D,
    batch_size: usize,
    input_size: usize,
    output_size: usize,
    shuffle: bool,
    seed: Option<u64>,
    indices: Vec<usize>,
    pos: usize,
    element: PhantomData<T>,
}

impl<'a, T: Copy, D: Dataset<T>> BatchIter<'a, T, D> {
    pub closed spec fn samples(&self) -> Seq<Sample<T>> {
        self.dataset.samples()
    }

    /// The order in which this pass visits the samples.
    pub closed spec fn order(&self) -> Seq<usize> {
        self.indices@
    }

    /// How many entries of `order` have been handed out.
    pub closed spec fn pos(&self) -> nat {
        self.pos as nat
    }

    pub closed spec fn spec_batch_size(&self) -> nat {
        self.batch_size as nat
    }

    pub closed spec fn spec_input_size(&self) -> nat {
        self.input_size as nat
    }

    pub closed spec fn spec_output_size(&self) -> nat {
        self.output_size as nat
    }

    pub closed spec fn spec_shuffle(&self) -> bool {
        self.shuffle
    }

    pub closed spec fn spec_seed(&self) -> Option<u64> {
        self.seed
    }

    /// The sizes of the batches still to come.
    pub open spec fn remaining(&self) -> Seq<nat> {
        pass_sizes(self.pos(), self.spec_batch_size(), self.order().len())
    }

    pub closed spec fn wf(&self) -> bool {
        let n = self.samples().len();
        &&& self.batch_size >= 1
        &&& uniform_samples(self.samples())
        &&& self.indices@.len() == n
        &&& self.indices@.to_multiset() == identity_order(n).to_multiset()
        &&& indexes_within(self.indices@, n)
        &&& self.pos <= n
        &&& self.input_size == if n > 0 {
            self.samples()[0].inputs.len()
        } else {
            0
        }
        &&& self.output_size == if n > 0 {
            self.samples()[0].expected.len()
        } else {
            0
        }
        &&& !self.shuffle ==> self.indices@ == identity_order(n)
        &&& (self.shuffle && self.seed is Some) ==> self.indices@ == seeded_shuffle(
            identity_order(n),
            self.seed->0,
        )
    }

    /// This is a pass that `loader` has just begun.
    pub open spec fn is_fresh_pass_of(&self, loader: &DataLoader<T, D>) -> bool {
        &&& self.pos() == 0
        &&& self.samples() == loader.samples()
        &&& self.spec_batch_size() == loader.spec_batch_size()
        &&& self.spec_shuffle() == loader.spec_shuffle()
        &&& self.spec_seed() == loader.spec_seed()
    }

    /// What a well-formed pass knows of its own shape.
    pub proof fn lemma_shape(&self)
        requires
            self.wf(),
        ensures
            self.order().len() == self.samples().len(),
            self.pos() <= self.order().len(),
            self.spec_batch_size() >= 1,
            self.samples().len() > 0 ==> self.spec_input_size() == self.samples()[0].inputs.len()
                && self.spec_output_size() == self.samples()[0].expected.len(),
            uniform_samples(self.samples()),
            is_pass_order(self.order(), self.samples().len(), self.spec_shuffle(), self.spec_seed()),
    {
    }

    fn new(data_loader: &'a DataLoader<T, D>) -> (r: Self)
        requires
            data_loader.wf(),
        ensures
            r.wf(),
            r.is_fresh_pass_of(data_loader),
    {
        let n = data_loader.dataset.len();
        let mut indices: Vec<usize> = Vec::new();
        let mut i: usize = 0;
        while i < n
            invariant
                i <= n,
                indices@ =~= identity_order(i as nat),
            decreases n - i,
        {
            indices.push(i);
            i = i + 1;
        }
        let ghost ident = indices@;
        if data_loader.shuffle {
            match data_loader.seed {
                Some(seed) => shuffle_seeded(&mut indices, seed),
                None => shuffle_unseeded(&mut indices),
            }
        }
        proof {
            let m = indices@.to_multiset();
            assert(m.len() == indices@.len());
            assert(ident.to_multiset().len() == ident.len());
            assert forall|k: int| 0 <= k < indices@.len() implies (#[trigger] indices@[k]) < n by {
                assert(m.count(indices@[k]) > 0);
                assert(ident.contains(indices@[k]));
            }
        }
        BatchIter {
            dataset: &data_loader.dataset,
            batch_size: data_loader.batch_size,
            input_size: data_loader.input_size(),
            output_size: data_loader.output_size(),
            shuffle: data_loader.shuffle,
            seed: data_loader.seed,
            indices,
            pos: 0,
            element: PhantomData,
        }
    }

    /// The next batch of the pass, as input rows and target rows, or nothing
    /// once every sample has been handed out.
    pub fn next(&mut self) -> (r: Option<(Matrix<T>, Matrix<T>)>)
        requires
            old(self).wf(),
        ensures
            final(self).wf(),
            final(self).samples() == old(self).samples(),
            final(self).order() == old(self).order(),
            final(self).spec_batch_size() == old(self).spec_batch_size(),
            final(self).spec_input_size() == old(self).spec_input_size(),
            final(self).spec_output_size() == old(self).spec_output_size(),
            final(self).spec_shuffle() == old(self).spec_shuffle(),
            final(self).spec_seed() == old(self).spec_seed(),
            (r is None) == (old(self).pos() >= old(self).order().len()),
            r is None ==> final(self).pos() == old(self).pos(),
            r is Some ==> {
                let pos = old(self).pos();
                let end = window_end(pos, old(self).spec_batch_size(), old(self).order().len());
                let (inputs, targets) = r->0;
                &&& final(self).pos() == end
                &&& old(self).remaining() == seq![(end - pos) as nat] + final(self).remaining()
                &&& inputs.wf()
                &&& inputs.cols == old(self).spec_input_size()
                &&& rows_match(inputs.rows@, old(self).samples(), old(self).order(), pos as int, end as int, false)
                &&& targets.wf()
                &&& targets.cols == old(self).spec_output_size()
                &&& rows_match(targets.rows@, old(self).samples(), old(self).order(), pos as int, end as int, true)
            },
    {
        let n = self.indices.len();
        if self.pos >= n {
            return None;
        }
        let start = self.pos;
        let end = if self.batch_size < n - start {
            start + self.batch_size
        } else {
            n
        };
        let mut inputs: Vec<Vec<T>> = Vec::new();
        let mut targets: Vec<Vec<T>> = Vec::new();
        let mut i: usize = start;
        while i < end
            invariant
                self.wf(),
                n == self.indices@.len(),
                start <= i <= end <= n,
                inputs.len() == i - start,
                targets.len() == i - start,
                forall|k: int|
                    0 <= k < i - start ==> (#[trigger] inputs[k])@ == self.samples()[self.indices@[start
                        + k] as int].inputs@,
                forall|k: int|
                    0 <= k < i - start ==> (#[trigger] targets[k])@ == self.samples()[self.indices@[start
                        + k] as int].expected@,
            decreases end - i,
        {
            let idx = self.indices[i];
            let sample = self.dataset.get(idx).unwrap();
            inputs.push(copy_row(&sample.inputs));
            targets.push(copy_row(&sample.expected));
            i = i + 1;
        }
        let ghost samples = self.samples();
        let ghost order = self.indices@;
        let inputs = Matrix { cols: self.input_size, rows: inputs };
        let targets = Matrix { cols: self.output_size, rows: targets };
        proof {
            assert forall|k: int| 0 <= k < inputs.rows.len() implies (
            #[trigger] inputs.rows[k]).len() == inputs.cols by {
                assert(samples[order[start + k] as int].inputs.len() == samples[0].inputs.len());
            }
            assert forall|k: int| 0 <= k < targets.rows.len() implies (
            #[trigger] targets.rows[k]).len() == targets.cols by {
                assert(samples[order[start + k] as int].expected.len()
                    == samples[0].expected.len());
            }
            assert(end == window_end(start as nat, self.batch_size as nat, n as nat));
        }
        self.pos = end;
        Some((inputs, targets))
    }
}

/// Two passes that shuffle with the same seed over datasets of the same
/// length visit the samples in the same order.
pub proof fn lemma_seeded_passes_agree<'a, 'b, T: Copy, D: Dataset<T>, E: Dataset<T>>(
    p: &BatchIter<'a, T, D>,
    q: &BatchIter<'b, T, E>,
)
    requires
        p.wf(),
        q.wf(),
        p.spec_shuffle(),
        q.spec_shuffle(),
        p.spec_seed() is Some,
        p.spec_seed() == q.spec_seed(),
        p.samples().len() == q.samples().len(),
    ensures
        p.order() == q.order(),
{
}

} // verus!
