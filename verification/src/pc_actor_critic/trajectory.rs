//! What is recorded while an agent runs: episode steps and hidden-layer activations.

use vstd::prelude::*;

use crate::linalg::{rewritten_row, rewritten_start, rewritten_step, Grid, LinAlg};
use crate::scalar::Scalar;

verus! {

/// One step of an episode.
pub struct TrajectoryStep<L: LinAlg> {
    /// Observation.
    pub input: L::Vector,
    /// Hidden activations of all layers, one after the other.
    pub latent_concat: L::Vector,
    /// Converged output of the actor.
    pub y_conv: L::Vector,
    /// Hidden activations per layer.
    pub hidden_states: Vec<L::Vector>,
    /// Prediction errors, output side first.
    pub prediction_errors: Vec<L::Vector>,
    /// Activations before the skip connection, for skip-connected layers.
    pub tanh_components: Vec<Option<L::Vector>>,
    /// Action taken.
    pub action: usize,
    /// Actions that were open.
    pub valid_actions: Vec<usize>,
    /// Reward received.
    pub reward: Scalar,
    /// How far the prediction was off.
    pub surprise_score: Scalar,
    /// Inference steps taken.
    pub steps_used: usize,
}

/// Hidden-layer activations, kept per layer and in the order they were recorded.
pub struct ActivationCache<L: LinAlg> {
    /// `layers[l][s]` holds the activations of layer `l` for sample `s`.
    pub layers: Vec<Vec<L::Vector>>,
}

/// The numbers of each vector.
pub open spec fn vector_views<L: LinAlg>(v: Seq<L::Vector>) -> Seq<Seq<Scalar>> {
    v.map_values(|x: L::Vector| L::seq(x))
}

/// The recorded activations after one more recording; layers without one stay as they are.
pub open spec fn recorded(
    samples: Seq<Seq<Seq<Scalar>>>,
    states: Seq<Seq<Scalar>>,
) -> Seq<Seq<Seq<Scalar>>> {
    Seq::new(
        samples.len(),
        |l: int| if l < states.len() { samples[l].push(states[l]) } else { samples[l] },
    )
}

/// The number of recordings: those of the first layer.
pub open spec fn sample_count(samples: Seq<Seq<Seq<Scalar>>>) -> nat {
    if samples.len() == 0 {
        0
    } else {
        samples[0].len()
    }
}

impl<L: LinAlg> ActivationCache<L> {
    /// The recorded activations as numbers: layer, sample, neuron.
    pub open spec fn samples(self) -> Seq<Seq<Seq<Scalar>>> {
        self.layers@.map_values(|l: Vec<L::Vector>| vector_views::<L>(l@))
    }

    /// A cache for `num_layers` layers with nothing recorded.
    pub fn new(num_layers: usize) -> (r: Self)
        ensures
            r.samples() == Seq::new(num_layers as nat, |l: int| Seq::<Seq<Scalar>>::empty()),
    {
        let mut layers: Vec<Vec<L::Vector>> = Vec::new();
        for l in 0..num_layers
            invariant
                layers@.len() == l,
                forall|i: int| 0 <= i < l ==> (#[trigger] layers@[i])@.len() == 0,
        {
            layers.push(Vec::new());
        }
        let r = ActivationCache { layers };
        assert(r.samples() =~~= Seq::new(num_layers as nat, |l: int| Seq::<Seq<Scalar>>::empty()));
        r
    }

    /// The number of samples recorded so far.
    pub fn batch_size(&self) -> (r: usize)
        ensures
            r == sample_count(self.samples()),
    {
        if self.layers.len() == 0 {
            0
        } else {
            self.layers[0].len()
        }
    }

    /// The number of layers.
    pub fn num_layers(&self) -> (r: usize)
        ensures
            r == self.samples().len(),
    {
        self.layers.len()
    }

    /// Records the activations of one inference pass.
    pub fn record(&mut self, hidden_states: &[L::Vector])
        ensures
            final(self).samples() == recorded(
                old(self).samples(),
                vector_views::<L>(hidden_states@),
            ),
    {
        let ghost before = self.samples();
        let ghost states = vector_views::<L>(hidden_states@);
        let mut l: usize = 0;
        while l < self.layers.len() && l < hidden_states.len()
            invariant
                self.layers@.len() == before.len(),
                l <= before.len(),
                l <= states.len(),
                states == vector_views::<L>(hidden_states@),
                forall|i: int|
                    0 <= i < l ==> vector_views::<L>((#[trigger] self.layers@[i])@)
                        == before[i].push(states[i]),
                forall|i: int|
                    l <= i < before.len() ==> vector_views::<L>((#[trigger] self.layers@[i])@)
                        == before[i],
            decreases before.len() - l,
        {
            let copy = L::vec_clone(&hidden_states[l]);
            let ghost row = self.layers@[l as int]@;
            self.layers[l].push(copy);
            assert(vector_views::<L>(row.push(copy)) =~= vector_views::<L>(row).push(
                states[l as int],
            ));
            l = l + 1;
        }
        assert(self.samples() =~= recorded(before, states));
    }

    /// What was recorded for one layer.
    pub fn layer(&self, layer_idx: usize) -> (r: &[L::Vector])
        requires
            layer_idx < self.samples().len(),
        ensures
            vector_views::<L>(r@) == self.samples()[layer_idx as int],
            r@ == self.layers@[layer_idx as int]@,
    {
        self.layers[layer_idx].as_slice()
    }
}

/// The activations of one layer as a matrix: a row per sample, a column per neuron.
pub open spec fn layer_matrix(samples: Seq<Seq<Scalar>>, batch: nat) -> Grid {
    if samples.len() == 0 {
        Grid::zeros(0, 0)
    } else {
        Grid::tabulate(
            batch,
            samples[0].len(),
            |r: int, c: int| if r < samples.len() { samples[r][c] } else { Scalar::zero() },
        )
    }
}

/// No layer has more samples than the first, and no sample is shorter than its layer's first.
pub open spec fn matrix_ready(samples: Seq<Seq<Seq<Scalar>>>) -> bool {
    forall|l: int, s: int|
        0 <= l < samples.len() && 0 <= s < samples[l].len() ==> {
            &&& samples[l].len() <= sample_count(samples)
            &&& samples[l][0].len() <= (#[trigger] samples[l][s]).len()
        }
}

/// The matrices of a cache, layer by layer.
pub open spec fn cache_matrices(samples: Seq<Seq<Seq<Scalar>>>) -> Seq<Grid> {
    samples.map_values(|s: Seq<Seq<Scalar>>| layer_matrix(s, sample_count(samples)))
}

/// The matrices of a cache, layer by layer: a row per sample, a column per neuron.
pub fn cache_to_matrices<L: LinAlg>(backend: &L, cache: &ActivationCache<L>) -> (r: Vec<L::Matrix>)
    requires
        matrix_ready(cache.samples()),
    ensures
        r@.map_values(|m: L::Matrix| L::grid(m)) == cache_matrices(cache.samples()),
{
    let ghost all = cache.samples();
    let num_layers: usize = cache.num_layers();
    let batch_size: usize = cache.batch_size();
    let mut matrices: Vec<L::Matrix> = Vec::new();
    let mut l: usize = 0;
    while l < num_layers
        invariant
            l <= num_layers == all.len(),
            batch_size == sample_count(all),
            all == cache.samples(),
            matrix_ready(all),
            matrices@.len() == l,
            forall|i: int|
                0 <= i < l ==> L::grid(#[trigger] matrices@[i]) == layer_matrix(
                    all[i],
                    sample_count(all),
                ),
        decreases num_layers - l,
    {
        let samples = cache.layer(l);
        if samples.len() == 0 {
            matrices.push(backend.zeros_mat(0, 0));
        } else {
            let ghost rows = all[l as int];
            assert(rows[0].len() == L::seq(samples@[0]).len());
            let n: usize = backend.vec_len(&samples[0]);
            let mut mat = backend.zeros_mat(batch_size, n);
            let ghost g0 = L::grid(mat);
            let ghost f = |r: int, c: int| rows[r][c];
            proof {
                rewritten_start(g0, f);
            }
            let mut r: usize = 0;
            while r < samples.len()
                invariant
                    r <= samples@.len() == rows.len(),
                    rows == vector_views::<L>(samples@),
                    rows == all[l as int],
                    l < all.len(),
                    rows.len() > 0,
                    rows.len() <= batch_size,
                    batch_size == sample_count(all),
                    matrix_ready(all),
                    n == rows[0].len(),
                    g0 == Grid::zeros(batch_size as nat, n as nat),
                    f == (|r: int, c: int| rows[r][c]),
                    L::grid(mat) == g0.rewritten(f, r as int, 0),
                decreases samples@.len() - r,
            {
                assert(all[l as int][r as int].len() >= n);
                let mut c: usize = 0;
                while c < n
                    invariant
                        c <= n,
                        r < samples@.len() == rows.len(),
                        rows == vector_views::<L>(samples@),
                        rows.len() <= batch_size,
                        rows[r as int].len() >= n,
                        g0 == Grid::zeros(batch_size as nat, n as nat),
                        f == (|r: int, c: int| rows[r][c]),
                        L::grid(mat) == g0.rewritten(f, r as int, c as int),
                    decreases n - c,
                {
                    let x = backend.vec_get(&samples[r], c);
                    assert(x == f(r as int, c as int));
                    proof {
                        rewritten_step(g0, f, r as int, c as int);
                    }
                    backend.mat_set(&mut mat, r, c, x);
                    c = c + 1;
                }
                proof {
                    rewritten_row(g0, f, r as int);
                }
                r = r + 1;
            }
            proof {
                let h = L::grid(mat);
                let k = layer_matrix(rows, sample_count(all));
                assert forall|i: int| 0 <= i < batch_size implies h.cells[i] == k.cells[i] by {
                    assert(h.cells[i] =~= k.cells[i]);
                }
                assert(h.cells =~= k.cells);
            }
            matrices.push(mat);
        }
        l = l + 1;
    }
    assert(matrices@.map_values(|m: L::Matrix| L::grid(m)) =~= cache_matrices(all));
    matrices
}

/// Recording the same number of layers every time keeps all layers equally long.
pub proof fn recording_keeps_layers_even(
    samples: Seq<Seq<Seq<Scalar>>>,
    states: Seq<Seq<Scalar>>,
)
    requires
        states.len() == samples.len(),
        forall|l: int| 0 <= l < samples.len()
            ==> (#[trigger] samples[l]).len() == sample_count(samples),
    ensures
        forall|l: int|
            0 <= l < samples.len() ==> (#[trigger] recorded(samples, states)[l]).len()
                == sample_count(samples) + 1,
{
}

/// What is recorded comes back: in every layer's matrix the newest activations are the last row, and
/// the rows before it are what they were.
pub proof fn recorded_activations_come_back(
    samples: Seq<Seq<Seq<Scalar>>>,
    states: Seq<Seq<Scalar>>,
    l: int,
    r: int,
    c: int,
)
    requires
        states.len() == samples.len(),
        forall|k: int|
            0 <= k < samples.len() ==> (#[trigger] samples[k]).len() == sample_count(samples),
        0 <= l < samples.len(),
        samples[l].len() > 0 ==> samples[l][0].len() == states[l].len(),
        0 <= c < states[l].len(),
    ensures
        ({
            let old_count = sample_count(samples) as int;
            let grown = cache_matrices(recorded(samples, states))[l];
            &&& grown.rows == old_count + 1
            &&& grown.cols == states[l].len()
            &&& grown.at(old_count, c) == states[l][c]
            &&& 0 <= r < old_count ==> grown.at(r, c) == cache_matrices(samples)[l].at(r, c)
        }),
{
    let all = recorded(samples, states);
    recording_keeps_layers_even(samples, states);
    assert(all[l].len() == sample_count(samples) + 1);
    assert(all[0].len() == sample_count(samples) + 1);
    assert(all[l][0].len() == states[l].len());
    assert(0 <= r < sample_count(samples) ==> all[l][r] == samples[l][r]);
    assert(all[l][sample_count(samples) as int] == states[l]);
}

} // verus!
