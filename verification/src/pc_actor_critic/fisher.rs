//! Parameter importance for elastic weight consolidation, one record per layer.

use vstd::prelude::*;

use crate::elementwise::{
    accumulate_mat, accumulate_vec, scale_mat, scale_vec, smooth_squares_mat, smooth_squares_vec,
    smoothed, smoothing_keeps_a_share,
};
use crate::linalg::{zero_seq, Grid, LinAlg};
use crate::networks::{grid_opt, layer_views, seq_opt, Layer, LayerView};
use crate::reading::{near, reads, sized, Reading};
use crate::scalar::Scalar;

verus! {

/// Importance of the parameters of one layer and the values they are held to.
pub struct FisherState<L: LinAlg> {
    /// Importance of the weights over all reliable phases.
    pub f_total_weights: L::Matrix,
    /// Importance of the biases over all reliable phases.
    pub f_total_bias: L::Vector,
    /// Importance of the weights in the current phase.
    pub f_ema_weights: L::Matrix,
    /// Importance of the biases in the current phase.
    pub f_ema_bias: L::Vector,
    /// Weights when the network last froze.
    pub theta_snapshot_weights: Option<L::Matrix>,
    /// Biases when the network last froze.
    pub theta_snapshot_bias: Option<L::Vector>,
    /// Skip scale when the network last froze.
    pub theta_snapshot_rezero_alpha: Option<Scalar>,
    /// Skip projection when the network last froze.
    pub theta_snapshot_skip_proj: Option<L::Matrix>,
}

/// What a record holds.
#[verifier::ext_equal]
pub struct FisherView {
    /// Importance of the weights over all reliable phases.
    pub total_weights: Grid,
    /// Importance of the biases over all reliable phases.
    pub total_bias: Seq<Scalar>,
    /// Importance of the weights in the current phase.
    pub ema_weights: Grid,
    /// Importance of the biases in the current phase.
    pub ema_bias: Seq<Scalar>,
    /// Weights when the network last froze.
    pub snapshot_weights: Option<Grid>,
    /// Biases when the network last froze.
    pub snapshot_bias: Option<Seq<Scalar>>,
    /// Skip scale when the network last froze.
    pub snapshot_rezero_alpha: Option<Scalar>,
    /// Skip projection when the network last froze.
    pub snapshot_skip_proj: Option<Grid>,
}

impl FisherView {
    /// A record with nothing learned.
    pub open spec fn blank(rows: nat, cols: nat, bias: nat) -> FisherView {
        FisherView {
            total_weights: Grid::zeros(rows, cols),
            total_bias: zero_seq(bias),
            ema_weights: Grid::zeros(rows, cols),
            ema_bias: zero_seq(bias),
            snapshot_weights: None,
            snapshot_bias: None,
            snapshot_rezero_alpha: None,
            snapshot_skip_proj: None,
        }
    }

    /// The record describes a layer of this shape.
    pub open spec fn fits(self, layer: LayerView) -> bool {
        &&& layer.weights.rows == layer.bias.len()
        &&& self.total_weights.same_shape(layer.weights)
        &&& self.ema_weights.same_shape(layer.weights)
        &&& self.total_bias.len() == layer.bias.len()
        &&& self.ema_bias.len() == layer.bias.len()
        &&& self.snapshot_weights matches Some(w) ==> w.same_shape(layer.weights)
        &&& self.snapshot_bias matches Some(b) ==> b.len() == layer.bias.len()
    }

    /// The record with the current phase forgotten.
    pub open spec fn phase_cleared(self) -> FisherView {
        FisherView {
            ema_weights: Grid::zeros(self.ema_weights.rows, self.ema_weights.cols),
            ema_bias: zero_seq(self.ema_bias.len()),
            ..self
        }
    }

    /// The record with its totals multiplied by `decay`.
    pub open spec fn decayed<L: LinAlg>(self, decay: Scalar) -> FisherView {
        FisherView {
            total_weights: Grid::tabulate(
                self.total_weights.rows,
                self.total_weights.cols,
                |r: int, c: int| L::times(self.total_weights.at(r, c), decay),
            ),
            total_bias: Seq::new(
                self.total_bias.len(),
                |i: int| L::times(self.total_bias[i], decay),
            ),
            ..self
        }
    }

    /// The record with the current phase added to its totals.
    pub open spec fn merged<L: LinAlg>(self) -> FisherView {
        FisherView {
            total_weights: Grid::tabulate(
                self.total_weights.rows,
                self.total_weights.cols,
                |r: int, c: int| L::plus(self.total_weights.at(r, c), self.ema_weights.at(r, c)),
            ),
            total_bias: Seq::new(
                self.total_bias.len(),
                |i: int| L::plus(self.total_bias[i], self.ema_bias[i]),
            ),
            ..self
        }
    }

    /// The record when its network wakes: totals decay after a reliable phase, and a new
    /// phase starts.
    pub open spec fn woken<L: LinAlg>(self, reliable: bool, decay: Scalar) -> FisherView {
        if reliable {
            self.decayed::<L>(decay).phase_cleared()
        } else {
            self.phase_cleared()
        }
    }

    /// The record when its network freezes: a reliable phase is merged, and the weights
    /// are remembered either way.
    pub open spec fn put_to_sleep<L: LinAlg>(self, reliable: bool, layer: LayerView) -> FisherView {
        let m = if reliable {
            self.merged::<L>()
        } else {
            self
        };
        FisherView {
            snapshot_weights: Some(layer.weights),
            snapshot_bias: Some(layer.bias),
            ..m
        }
    }

    /// The record after one gradient of the layer.
    pub open spec fn absorbed<L: LinAlg>(self, grad: Seq<Scalar>, beta: Scalar) -> FisherView {
        FisherView {
            ema_weights: Grid::tabulate(
                self.ema_weights.rows,
                self.ema_weights.cols,
                |r: int, c: int|
                    smoothed::<L>(self.ema_weights.at(r, c), L::times(grad[r], grad[r]), beta),
            ),
            ema_bias: Seq::new(
                self.ema_bias.len(),
                |i: int| smoothed::<L>(self.ema_bias[i], L::times(grad[i], grad[i]), beta),
            ),
            ..self
        }
    }
}

/// What each record holds.
pub open spec fn fisher_views<L: LinAlg>(f: Seq<FisherState<L>>) -> Seq<FisherView> {
    f.map_values(|s: FisherState<L>| s.view())
}

/// One record per layer, each of its layer's shape.
pub open spec fn fishers_fit(f: Seq<FisherView>, layers: Seq<LayerView>) -> bool {
    &&& f.len() == layers.len()
    &&& forall|i: int| 0 <= i < f.len() ==> (#[trigger] f[i]).fits(layers[i])
}

impl<L: LinAlg> FisherState<L> {
    /// The numbers of the record.
    pub open spec fn view(&self) -> FisherView {
        FisherView {
            total_weights: L::grid(self.f_total_weights),
            total_bias: L::seq(self.f_total_bias),
            ema_weights: L::grid(self.f_ema_weights),
            ema_bias: L::seq(self.f_ema_bias),
            snapshot_weights: grid_opt::<L>(self.theta_snapshot_weights),
            snapshot_bias: seq_opt::<L>(self.theta_snapshot_bias),
            snapshot_rezero_alpha: self.theta_snapshot_rezero_alpha,
            snapshot_skip_proj: grid_opt::<L>(self.theta_snapshot_skip_proj),
        }
    }

    /// A record with nothing learned.
    pub fn new(backend: &L, weight_rows: usize, weight_cols: usize, bias_size: usize) -> (r: Self)
        ensures
            r@ == FisherView::blank(weight_rows as nat, weight_cols as nat, bias_size as nat),
    {
        FisherState {
            f_total_weights: backend.zeros_mat(weight_rows, weight_cols),
            f_total_bias: backend.zeros_vec(bias_size),
            f_ema_weights: backend.zeros_mat(weight_rows, weight_cols),
            f_ema_bias: backend.zeros_vec(bias_size),
            theta_snapshot_weights: None,
            theta_snapshot_bias: None,
            theta_snapshot_rezero_alpha: None,
            theta_snapshot_skip_proj: None,
        }
    }

    /// Forgets the current phase.
    pub fn clear_phase(&mut self, backend: &L)
        ensures
            final(self)@ == old(self)@.phase_cleared(),
    {
        let rows: usize = backend.mat_rows(&self.f_ema_weights);
        let cols: usize = backend.mat_cols(&self.f_ema_weights);
        self.f_ema_weights = backend.zeros_mat(rows, cols);
        let n: usize = backend.vec_len(&self.f_ema_bias);
        self.f_ema_bias = backend.zeros_vec(n);
    }

    /// Starts a new phase; the totals decay where the last phase was reliable.
    pub fn wake(&mut self, backend: &L, reliable: bool, decay: Scalar)
        ensures
            final(self)@ == old(self)@.woken::<L>(reliable, decay),
    {
        if reliable {
            scale_mat(backend, &mut self.f_total_weights, decay);
            scale_vec(backend, &mut self.f_total_bias, decay);
        }
        self.clear_phase(backend);
    }

    /// Ends a phase: merges it where it was reliable, and remembers the layer's weights.
    pub fn sleep(&mut self, backend: &L, reliable: bool, layer: &Layer<L>)
        requires
            old(self)@.fits(layer@),
        ensures
            final(self)@ == old(self)@.put_to_sleep::<L>(reliable, layer@),
    {
        if reliable {
            accumulate_mat(backend, &mut self.f_total_weights, &self.f_ema_weights);
            accumulate_vec(backend, &mut self.f_total_bias, &self.f_ema_bias);
        }
        self.theta_snapshot_weights = Some(L::mat_clone(&layer.weights));
        self.theta_snapshot_bias = Some(L::vec_clone(&layer.bias));
    }

    /// Takes in one gradient of the layer.
    pub fn absorb(&mut self, backend: &L, grad: &L::Vector, beta: Scalar)
        requires
            old(self)@.ema_weights.rows <= L::seq(*grad).len(),
            old(self)@.ema_bias.len() <= L::seq(*grad).len(),
        ensures
            final(self)@ == old(self)@.absorbed::<L>(L::seq(*grad), beta),
    {
        smooth_squares_vec(backend, &mut self.f_ema_bias, grad, beta);
        smooth_squares_mat(backend, &mut self.f_ema_weights, grad, beta);
    }
}

/// The records that a network starts with: one per layer where consolidation is on.
pub open spec fn fresh_fishers(layers: Seq<LayerView>, ewc_lambda: Scalar) -> Seq<FisherView> {
    if Scalar::zero().below(ewc_lambda) {
        Seq::new(
            layers.len(),
            |i: int|
                FisherView::blank(
                    layers[i].weights.rows,
                    layers[i].weights.cols,
                    layers[i].bias.len(),
                ),
        )
    } else {
        Seq::empty()
    }
}

/// Blank records for the layers of a network; none where consolidation is off.
pub fn build_fisher_for_layers<L: LinAlg>(
    backend: &L,
    layers: &Vec<Layer<L>>,
    ewc_lambda: Scalar,
) -> (r: Vec<FisherState<L>>)
    ensures
        fisher_views(r@) == fresh_fishers(layer_views(layers@), ewc_lambda),
{
    let mut out: Vec<FisherState<L>> = Vec::new();
    if Scalar::zero().lt(ewc_lambda) {
        let mut i: usize = 0;
        while i < layers.len()
            invariant
                i <= layers@.len(),
                out@.len() == i,
                forall|j: int|
                    0 <= j < i ==> (#[trigger] out@[j])@ == FisherView::blank(
                        layers@[j]@.weights.rows,
                        layers@[j]@.weights.cols,
                        layers@[j]@.bias.len(),
                    ),
            decreases layers@.len() - i,
        {
            let rows: usize = backend.mat_rows(&layers[i].weights);
            let cols: usize = backend.mat_cols(&layers[i].weights);
            let bias: usize = backend.vec_len(&layers[i].bias);
            out.push(FisherState::new(backend, rows, cols, bias));
            i = i + 1;
        }
    }
    assert(fisher_views(out@) =~= fresh_fishers(layer_views(layers@), ewc_lambda));
    out
}

/// Starts a new phase for every layer.
pub fn wake_all<L: LinAlg>(
    backend: &L,
    fishers: &mut Vec<FisherState<L>>,
    reliable: bool,
    decay: Scalar,
)
    ensures
        fisher_views(final(fishers)@) == fisher_views(old(fishers)@).map_values(
            |f: FisherView| f.woken::<L>(reliable, decay),
        ),
{
    let ghost before = fisher_views(fishers@);
    let mut i: usize = 0;
    while i < fishers.len()
        invariant
            i <= fishers@.len(),
            fishers@.len() == before.len(),
            forall|j: int|
                0 <= j < i ==> (#[trigger] fishers@[j])@ == before[j].woken::<L>(reliable, decay),
            forall|j: int| i <= j < fishers@.len() ==> (#[trigger] fishers@[j])@ == before[j],
        decreases fishers@.len() - i,
    {
        fishers[i].wake(backend, reliable, decay);
        i = i + 1;
    }
    assert(fisher_views(fishers@) =~= before.map_values(
        |f: FisherView| f.woken::<L>(reliable, decay),
    ));
}

/// Forgets the current phase of every layer.
pub fn clear_all<L: LinAlg>(backend: &L, fishers: &mut Vec<FisherState<L>>)
    ensures
        fisher_views(final(fishers)@) == fisher_views(old(fishers)@).map_values(
            |f: FisherView| f.phase_cleared(),
        ),
{
    let ghost before = fisher_views(fishers@);
    let mut i: usize = 0;
    while i < fishers.len()
        invariant
            i <= fishers@.len(),
            fishers@.len() == before.len(),
            forall|j: int| 0 <= j < i ==> (#[trigger] fishers@[j])@ == before[j].phase_cleared(),
            forall|j: int| i <= j < fishers@.len() ==> (#[trigger] fishers@[j])@ == before[j],
        decreases fishers@.len() - i,
    {
        fishers[i].clear_phase(backend);
        i = i + 1;
    }
    assert(fisher_views(fishers@) =~= before.map_values(|f: FisherView| f.phase_cleared()));
}

/// The records of a network that freezes.
pub open spec fn slept_fishers<L: LinAlg>(
    f: Seq<FisherView>,
    reliable: bool,
    layers: Seq<LayerView>,
) -> Seq<FisherView> {
    Seq::new(f.len(), |i: int| f[i].put_to_sleep::<L>(reliable, layers[i]))
}

/// Ends a phase for every layer.
pub fn sleep_all<L: LinAlg>(
    backend: &L,
    fishers: &mut Vec<FisherState<L>>,
    reliable: bool,
    layers: &Vec<Layer<L>>,
)
    requires
        fishers_fit(fisher_views(old(fishers)@), layer_views(layers@)) || old(fishers)@.len() == 0,
    ensures
        fisher_views(final(fishers)@) == slept_fishers::<L>(
            fisher_views(old(fishers)@),
            reliable,
            layer_views(layers@),
        ),
{
    let ghost before = fisher_views(fishers@);
    let mut i: usize = 0;
    while i < fishers.len()
        invariant
            i <= fishers@.len(),
            fishers@.len() == before.len(),
            fishers_fit(before, layer_views(layers@)) || before.len() == 0,
            forall|j: int|
                0 <= j < i ==> (#[trigger] fishers@[j])@ == before[j].put_to_sleep::<L>(
                    reliable,
                    layers@[j]@,
                ),
            forall|j: int| i <= j < fishers@.len() ==> (#[trigger] fishers@[j])@ == before[j],
        decreases fishers@.len() - i,
    {
        assert(before[i as int].fits(layer_views(layers@)[i as int]));
        fishers[i].sleep(backend, reliable, &layers[i]);
        i = i + 1;
    }
    assert(fisher_views(fishers@) =~= slept_fishers::<L>(before, reliable, layer_views(layers@)));
}

/// Waking and freezing keep every record of its layer's shape.
pub proof fn lifecycle_keeps_shape<L: LinAlg>(
    f: FisherView,
    layer: LayerView,
    reliable: bool,
    decay: Scalar,
)
    requires
        f.fits(layer),
    ensures
        f.woken::<L>(reliable, decay).fits(layer),
        f.put_to_sleep::<L>(reliable, layer).fits(layer),
        f.phase_cleared().fits(layer),
{
}

/// A phase that was too short to be reliable leaves the totals exactly as they were,
/// through freezing and waking again.
pub proof fn short_phase_keeps_totals<L: LinAlg>(f: FisherView, layer: LayerView, decay: Scalar)
    ensures
        f.put_to_sleep::<L>(false, layer).woken::<L>(false, decay).total_weights == f.total_weights,
        f.put_to_sleep::<L>(false, layer).woken::<L>(false, decay).total_bias == f.total_bias,
{
}

/// Freezing remembers the weights whether or not the phase was reliable.
pub proof fn freezing_always_remembers<L: LinAlg>(f: FisherView, layer: LayerView, reliable: bool)
    ensures
        f.put_to_sleep::<L>(reliable, layer).snapshot_weights == Some(layer.weights),
        f.put_to_sleep::<L>(reliable, layer).snapshot_bias == Some(layer.bias),
{
}

/// Waking starts a phase from zero and keeps what was remembered.
pub proof fn waking_starts_from_zero<L: LinAlg>(f: FisherView, reliable: bool, decay: Scalar)
    ensures
        f.woken::<L>(reliable, decay).ema_weights == Grid::zeros(
            f.ema_weights.rows,
            f.ema_weights.cols,
        ),
        f.woken::<L>(reliable, decay).ema_bias == zero_seq(f.ema_bias.len()),
        f.woken::<L>(reliable, decay).snapshot_weights == f.snapshot_weights,
        f.woken::<L>(reliable, decay).snapshot_bias == f.snapshot_bias,
{
}

/// The importance of a weight in the current phase is a smoothed square of the gradients that it
/// gets: it keeps the given share of itself and takes the rest from the square of its row's
/// gradient.
pub proof fn importance_is_the_smoothed_square<L: LinAlg>(
    rd: Reading,
    f: FisherView,
    grad: Seq<Scalar>,
    beta: Scalar,
    r: int,
    c: int,
    bound: real,
)
    requires
        reads::<L>(rd),
        0 <= r < f.ema_weights.rows,
        0 <= c < f.ema_weights.cols,
        f.ema_weights.at(r, c).finite(),
        sized(rd.of(f.ema_weights.at(r, c)), bound),
        grad[r].finite(),
        sized(rd.of(grad[r]) * rd.of(grad[r]), bound),
        beta.finite(),
        0 as real <= rd.of(beta) <= 1 as real,
        bound >= 0 as real,
        1 as real <= rd.top,
        bound + bound + rd.slack * (bound + rd.slack) + rd.slack + rd.slack + rd.slack <= rd.top,
    ensures
        rd.shows(
            f.absorbed::<L>(grad, beta).ema_weights.at(r, c),
            rd.of(beta) * rd.of(f.ema_weights.at(r, c)) + (1 as real - rd.of(beta)) * (rd.of(
                grad[r],
            ) * rd.of(grad[r])),
            rd.slack * (bound + rd.slack) + rd.slack + rd.slack + rd.slack + rd.slack,
        ),
{
    let g = rd.of(grad[r]);
    let s = rd.slack;
    assert(s * (bound + s) >= 0 as real) by (nonlinear_arith)
        requires
            s >= 0 as real,
            bound >= 0 as real,
    ;
    assert(rd.shows(L::times(grad[r], grad[r]), g * g, s));
    smoothing_keeps_a_share::<L>(
        rd,
        f.ema_weights.at(r, c),
        L::times(grad[r], grad[r]),
        beta,
        g * g,
        s,
        bound,
    );
}

/// The same of the biases.
pub proof fn bias_importance_is_the_smoothed_square<L: LinAlg>(
    rd: Reading,
    f: FisherView,
    grad: Seq<Scalar>,
    beta: Scalar,
    i: int,
    bound: real,
)
    requires
        reads::<L>(rd),
        0 <= i < f.ema_bias.len(),
        f.ema_bias[i].finite(),
        sized(rd.of(f.ema_bias[i]), bound),
        grad[i].finite(),
        sized(rd.of(grad[i]) * rd.of(grad[i]), bound),
        beta.finite(),
        0 as real <= rd.of(beta) <= 1 as real,
        bound >= 0 as real,
        1 as real <= rd.top,
        bound + bound + rd.slack * (bound + rd.slack) + rd.slack + rd.slack + rd.slack <= rd.top,
    ensures
        rd.shows(
            f.absorbed::<L>(grad, beta).ema_bias[i],
            rd.of(beta) * rd.of(f.ema_bias[i]) + (1 as real - rd.of(beta)) * (rd.of(grad[i])
                * rd.of(grad[i])),
            rd.slack * (bound + rd.slack) + rd.slack + rd.slack + rd.slack + rd.slack,
        ),
{
    let g = rd.of(grad[i]);
    let s = rd.slack;
    assert(s * (bound + s) >= 0 as real) by (nonlinear_arith)
        requires
            s >= 0 as real,
            bound >= 0 as real,
    ;
    assert(rd.shows(L::times(grad[i], grad[i]), g * g, s));
    smoothing_keeps_a_share::<L>(
        rd,
        f.ema_bias[i],
        L::times(grad[i], grad[i]),
        beta,
        g * g,
        s,
        bound,
    );
}

/// Over a whole cycle of freezing and waking after a reliable phase, the total importance of a
/// weight is the old total plus that of the phase, all of it faded by the decay, and the next phase
/// starts from nothing. After an unreliable phase the total stays.
pub proof fn a_cycle_adds_and_fades<L: LinAlg>(
    rd: Reading,
    f: FisherView,
    reliable: bool,
    decay: Scalar,
    layer: LayerView,
    r: int,
    c: int,
    bound: real,
)
    requires
        reads::<L>(rd),
        0 <= r < f.total_weights.rows,
        0 <= c < f.total_weights.cols,
        f.total_weights.at(r, c).finite(),
        f.ema_weights.at(r, c).finite(),
        sized(rd.of(f.total_weights.at(r, c)), bound),
        sized(rd.of(f.ema_weights.at(r, c)), bound),
        decay.finite(),
        0 as real <= rd.of(decay) <= 1 as real,
        bound >= 0 as real,
        bound + bound + rd.slack <= rd.top,
        f.ema_weights.same_shape(f.total_weights),
    ensures
        ({
            let end = f.put_to_sleep::<L>(reliable, layer).woken::<L>(reliable, decay);
            let total = rd.of(f.total_weights.at(r, c));
            let phase = rd.of(f.ema_weights.at(r, c));
            &&& reliable ==> rd.shows(
                end.total_weights.at(r, c),
                rd.of(decay) * (total + phase),
                rd.slack + rd.slack,
            )
            &&& !reliable ==> end.total_weights == f.total_weights
            &&& end.ema_weights.at(r, c) == Scalar::zero()
            &&& end.snapshot_weights == Some(layer.weights)
        }),
{
    let total = rd.of(f.total_weights.at(r, c));
    let phase = rd.of(f.ema_weights.at(r, c));
    let sum = L::plus(f.total_weights.at(r, c), f.ema_weights.at(r, c));
    let d = rd.of(decay);
    let s = rd.slack;
    let x = rd.of(sum);
    assert(rd.shows(sum, total + phase, s));
    assert(near(x * d, d * (total + phase), s) && sized(x * d, bound + bound + s))
        by (nonlinear_arith)
        requires
            near(x, total + phase, s),
            0 as real <= d <= 1 as real,
            s >= 0 as real,
            sized(total, bound),
            sized(phase, bound),
            bound >= 0 as real,
    ;
    assert(rd.shows(L::times(sum, decay), x * d, s));
}

/// The same of the biases.
pub proof fn a_cycle_adds_and_fades_biases<L: LinAlg>(
    rd: Reading,
    f: FisherView,
    reliable: bool,
    decay: Scalar,
    layer: LayerView,
    j: int,
    bound: real,
)
    requires
        reads::<L>(rd),
        0 <= j < f.total_bias.len(),
        f.total_bias[j].finite(),
        f.ema_bias[j].finite(),
        sized(rd.of(f.total_bias[j]), bound),
        sized(rd.of(f.ema_bias[j]), bound),
        decay.finite(),
        0 as real <= rd.of(decay) <= 1 as real,
        bound >= 0 as real,
        bound + bound + rd.slack <= rd.top,
        f.ema_bias.len() == f.total_bias.len(),
    ensures
        ({
            let end = f.put_to_sleep::<L>(reliable, layer).woken::<L>(reliable, decay);
            let total = rd.of(f.total_bias[j]);
            let phase = rd.of(f.ema_bias[j]);
            &&& reliable ==> rd.shows(
                end.total_bias[j],
                rd.of(decay) * (total + phase),
                rd.slack + rd.slack,
            )
            &&& !reliable ==> end.total_bias == f.total_bias
            &&& end.ema_bias[j] == Scalar::zero()
            &&& end.snapshot_bias == Some(layer.bias)
        }),
{
    let total = rd.of(f.total_bias[j]);
    let phase = rd.of(f.ema_bias[j]);
    let sum = L::plus(f.total_bias[j], f.ema_bias[j]);
    let d = rd.of(decay);
    let s = rd.slack;
    let x = rd.of(sum);
    assert(rd.shows(sum, total + phase, s));
    assert(near(x * d, d * (total + phase), s) && sized(x * d, bound + bound + s))
        by (nonlinear_arith)
        requires
            near(x, total + phase, s),
            0 as real <= d <= 1 as real,
            s >= 0 as real,
            sized(total, bound),
            sized(phase, bound),
            bound >= 0 as real,
    ;
    assert(rd.shows(L::times(sum, decay), x * d, s));
}

} // verus!
