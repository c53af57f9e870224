//! What is kept of an agent in a save file, and how an agent is put together from it.

use chrono::Utc;
use vstd::prelude::*;

use crate::linalg::{rewritten_all, rewritten_row, rewritten_start, rewritten_step, Grid, LinAlg};
use crate::networks::{
    activations, grid_opt, layer_views, Activation, ActorWeights, Layer, LayerView, MlpCritic,
    PcActor,
};
use crate::pc_actor_critic::agent::{DEFAULT_ROLLBACK_HARD_COOLDOWN, NEVER_ROLLED_BACK};
use crate::pc_actor_critic::config::PcActorCriticConfig;
use crate::pc_actor_critic::ewma::PlasticityState;
use crate::pc_actor_critic::replay::{copy_scalars, ReplayBuffer};
use crate::scalar::Scalar;
use crate::text::{decimal, decimal_digits, decimal_digits_are_digits, is_digit};

verus! {

/// A matrix, row after row.
#[derive(Clone, Debug, PartialEq)]
pub struct Matrix {
    /// Number of rows.
    pub rows: usize,
    /// Number of columns.
    pub cols: usize,
    /// The numbers, row after row.
    pub data: Vec<Scalar>,
}

/// Training statistics.
#[derive(Clone, Copy, Debug)]
pub struct TrainingMetrics {
    /// Share of games won.
    pub win_rate: Scalar,
    /// Share of games lost.
    pub loss_rate: Scalar,
    /// Share of games drawn.
    pub draw_rate: Scalar,
    /// Average surprise over recent episodes.
    pub avg_surprise: Scalar,
    /// Curriculum level.
    pub curriculum_depth: usize,
}

/// What a save file says of itself.
#[derive(Clone, Debug)]
pub struct AgentMetadata {
    /// Version of the crate.
    pub version: String,
    /// When the file was made.
    pub created: String,
    /// Episode at which it was made.
    pub episode: usize,
    /// Training statistics, where there are any.
    pub metrics: Option<TrainingMetrics>,
}

/// Weights of one layer.
#[derive(Clone, Debug, PartialEq)]
pub struct LayerWeights {
    /// Weights, one row per neuron.
    pub weights: Matrix,
    /// Biases, one per neuron.
    pub bias: Vec<Scalar>,
    /// Activation function.
    pub activation: Activation,
}

/// Weights of an actor.
#[derive(Clone, Debug, PartialEq)]
pub struct PcActorWeights {
    /// Hidden layers and, last, the output layer.
    pub layers: Vec<LayerWeights>,
    /// Scale of each skip-connected layer.
    pub rezero_alpha: Vec<Scalar>,
    /// Projection of each skip connection whose ends differ in size.
    pub skip_projections: Vec<Option<Matrix>>,
}

/// Weights of a critic.
#[derive(Clone, Debug, PartialEq)]
pub struct MlpCriticWeights {
    /// Hidden layers and, last, the output layer.
    pub layers: Vec<LayerWeights>,
}

/// Importance record of one layer.
#[derive(Clone, Debug, PartialEq)]
pub struct FisherStateSerialized {
    /// Importance of the weights over all reliable phases.
    pub f_total_weights: Matrix,
    /// Importance of the biases over all reliable phases.
    pub f_total_bias: Vec<Scalar>,
    /// Importance of the weights in the current phase.
    pub f_ema_weights: Matrix,
    /// Importance of the biases in the current phase.
    pub f_ema_bias: Vec<Scalar>,
    /// Weights when the network last froze.
    pub theta_snapshot_weights: Option<Matrix>,
    /// Biases when the network last froze.
    pub theta_snapshot_bias: Option<Vec<Scalar>>,
    /// Skip scale when the network last froze.
    pub theta_snapshot_rezero_alpha: Option<Scalar>,
    /// Skip projection when the network last froze.
    pub theta_snapshot_skip_proj: Option<Matrix>,
}

/// Moving average.
#[derive(Clone, Copy, Debug, PartialEq, Eq, Structural)]
pub struct EwmaTrackerSerialized {
    /// Current average.
    pub value: Scalar,
    /// Samples taken.
    pub k: u64,
    /// Window.
    pub window: usize,
}

/// Plasticity machine.
#[derive(Clone, Copy, Debug, PartialEq, Eq, Structural)]
pub struct HysteresisStateSerialized {
    /// Fast average.
    pub fast: EwmaTrackerSerialized,
    /// Slow average.
    pub slow: EwmaTrackerSerialized,
    /// Current state.
    pub state: PlasticityState,
    /// Excess of the fast average that wakes.
    pub wake_fraction: Scalar,
    /// Shortfall of the fast average that freezes.
    pub sleep_fraction: Scalar,
    /// Fewest samples before the first freeze.
    pub min_initial_plastic: u64,
}

/// Everything about continual learning that outlives a run.
#[derive(Clone, Debug, PartialEq)]
pub struct ClState {
    /// Plasticity machine of the actor.
    pub actor_hysteresis: Option<HysteresisStateSerialized>,
    /// Plasticity machine of the critic.
    pub critic_hysteresis: Option<HysteresisStateSerialized>,
    /// Steps that the actor has been plastic.
    pub actor_plastic_step_counter: u64,
    /// Steps that the critic has been plastic.
    pub critic_plastic_step_counter: u64,
    /// Steps that the critic has been frozen.
    pub critic_frozen_steps: u64,
    /// Steps that the actor has been frozen.
    pub actor_frozen_steps: u64,
    /// Importance records of the actor.
    pub actor_fisher: Vec<FisherStateSerialized>,
    /// Importance records of the critic.
    pub critic_fisher: Vec<FisherStateSerialized>,
    /// Whether the actor's last plastic phase was long enough to count.
    pub actor_last_phase_reliable: bool,
    /// Whether the critic's last plastic phase was long enough to count.
    pub critic_last_phase_reliable: bool,
    /// Smoothed prediction error per hidden layer of the actor.
    pub layer_error_ema: Vec<Scalar>,
}

/// A save file.
#[derive(Clone, Debug)]
pub struct SaveFile {
    /// What the file says of itself.
    pub metadata: AgentMetadata,
    /// Configuration.
    pub config: PcActorCriticConfig,
    /// Weights of the actor.
    pub actor_weights: PcActorWeights,
    /// Weights of the critic.
    pub critic_weights: MlpCriticWeights,
    /// Continual learning, where anything is known.
    pub cl_state: Option<ClState>,
    /// Weights of the Polyak target.
    pub polyak_target_weights: Option<PcActorWeights>,
    /// Weights of the champion.
    pub frozen_champion_weights: Option<PcActorWeights>,
    /// Replay memory.
    pub replay_buffer: Option<ReplayBuffer>,
    /// Replay steps in which the TD error had to be clamped.
    pub replay_clamp_count: u64,
    /// Learning steps since the last hard rollback.
    pub steps_since_last_rollback_hard: u64,
    /// Learning steps that have to pass between two hard rollbacks.
    pub rollback_hard_cooldown_steps: u64,
}

/// Steps since the last hard rollback where a file says nothing: it never happened.
pub fn default_steps_since_last_rollback_hard() -> (r: u64)
    ensures
        r == u64::MAX,
{
    NEVER_ROLLED_BACK
}

/// The cooldown where a file says nothing.
pub fn default_rollback_hard_cooldown_steps() -> (r: u64)
    ensures
        r == DEFAULT_ROLLBACK_HARD_COOLDOWN,
{
    DEFAULT_ROLLBACK_HARD_COOLDOWN
}

impl Matrix {
    /// There are as many numbers as there are cells.
    pub open spec fn well_formed(self) -> bool {
        self.data@.len() == self.rows * self.cols
    }

    /// The rectangle that the matrix stands for.
    pub open spec fn grid(self) -> Grid {
        Grid::tabulate(
            self.rows as nat,
            self.cols as nat,
            |r: int, c: int| self.data@[r * self.cols + c],
        )
    }
}

proof fn cell_in_row(r: int, c: int, rows: int, cols: int)
    by (nonlinear_arith)
    requires
        0 <= r < rows,
        0 <= c < cols,
    ensures
        0 <= r * cols + c < (r + 1) * cols,
        (r + 1) * cols == r * cols + cols,
        (r + 1) * cols <= rows * cols,
{
}

proof fn earlier_row(i: int, j: int, r: int, cols: int)
    by (nonlinear_arith)
    requires
        0 <= i < r,
        0 <= j < cols,
    ensures
        0 <= i * cols + j < r * cols,
{
}

/// The matrix as it is saved.
pub fn mat_to_cpu<L: LinAlg>(backend: &L, m: &L::Matrix) -> (r: Matrix)
    ensures
        r.well_formed(),
        r.grid() == L::grid(*m),
{
    let ghost g = L::grid(*m);
    let rows: usize = backend.mat_rows(m);
    let cols: usize = backend.mat_cols(m);
    let mut data: Vec<Scalar> = Vec::new();
    let mut r: usize = 0;
    assert(0 * cols == 0) by (nonlinear_arith);
    while r < rows
        invariant
            r <= rows,
            rows == g.rows,
            cols == g.cols,
            g == L::grid(*m),
            data@.len() == r * cols,
            forall|i: int, j: int|
                0 <= i < r && 0 <= j < cols ==> #[trigger] data@[i * cols + j] == g.at(i, j),
        decreases rows - r,
    {
        let mut c: usize = 0;
        while c < cols
            invariant
                r < rows,
                c <= cols,
                rows == g.rows,
                cols == g.cols,
                g == L::grid(*m),
                data@.len() == r * cols + c,
                forall|i: int, j: int|
                    0 <= i < r && 0 <= j < cols ==> #[trigger] data@[i * cols + j] == g.at(i, j),
                forall|j: int| 0 <= j < c ==> #[trigger] data@[r * cols + j] == g.at(r as int, j),
            decreases cols - c,
        {
            let ghost before = data@;
            data.push(backend.mat_get(m, r, c));
            proof {
                assert forall|i: int, j: int| 0 <= i < r && 0 <= j < cols implies #[trigger] data@[i
                    * cols + j] == g.at(i, j) by {
                    earlier_row(i, j, r as int, cols as int);
                    assert(data@[i * cols + j] == before[i * cols + j]);
                }
                assert forall|j: int| 0 <= j < c + 1 implies #[trigger] data@[r * cols + j]
                    == g.at(r as int, j) by {
                    cell_in_row(r as int, j, rows as int, cols as int);
                    if j < c {
                        assert(data@[r * cols + j] == before[r * cols + j]);
                    }
                }
            }
            c = c + 1;
        }
        proof {
            assert((r + 1) * cols == r * cols + cols) by (nonlinear_arith);
            assert forall|i: int, j: int|
                0 <= i < r + 1 && 0 <= j < cols implies #[trigger] data@[i * cols + j] == g.at(
                i,
                j,
            ) by {
                if i == r {
                    assert(data@[r * cols + j] == g.at(r as int, j));
                }
            }
        }
        r = r + 1;
    }
    let out = Matrix { rows, cols, data };
    proof {
        assert forall|i: int| 0 <= i < g.rows implies out.grid().cells[i] == g.cells[i] by {
            assert forall|j: int| 0 <= j < cols implies out.grid().cells[i][j] == g.cells[i][j] by {
                assert(out.data@[i * cols + j] == g.at(i, j));
            }
            assert(out.grid().cells[i] =~= g.cells[i]);
        }
        assert(out.grid().cells =~= g.cells);
    }
    out
}

/// A saved matrix as the backend holds it.
pub fn cpu_to_mat<L: LinAlg>(backend: &L, m: &Matrix) -> (out: L::Matrix)
    requires
        m.well_formed(),
    ensures
        L::grid(out) == m.grid(),
{
    let mut out = backend.zeros_mat(m.rows, m.cols);
    let ghost g0 = L::grid(out);
    let ghost f = |r: int, c: int| m.data@[r * m.cols + c];
    let n: usize = m.data.len();
    let mut k: usize = 0;
    let mut r: usize = 0;
    proof {
        rewritten_start(g0, f);
        assert(0 * m.cols == 0) by (nonlinear_arith);
    }
    while r < m.rows
        invariant
            r <= m.rows,
            m.well_formed(),
            n == m.data@.len(),
            g0.rows == m.rows,
            g0.cols == m.cols,
            f == (|r: int, c: int| m.data@[r * m.cols + c]),
            k == r * m.cols,
            L::grid(out) == g0.rewritten(f, r as int, 0),
        decreases m.rows - r,
    {
        let mut c: usize = 0;
        while c < m.cols
            invariant
                r < m.rows,
                c <= m.cols,
                m.well_formed(),
                n == m.data@.len(),
                g0.rows == m.rows,
                g0.cols == m.cols,
                f == (|r: int, c: int| m.data@[r * m.cols + c]),
                k == r * m.cols + c,
                L::grid(out) == g0.rewritten(f, r as int, c as int),
            decreases m.cols - c,
        {
            proof {
                cell_in_row(r as int, c as int, m.rows as int, m.cols as int);
                rewritten_step(g0, f, r as int, c as int);
            }
            backend.mat_set(&mut out, r, c, m.data[k]);
            k = k + 1;
            c = c + 1;
        }
        proof {
            rewritten_row(g0, f, r as int);
            assert((r + 1) * m.cols == r * m.cols + m.cols) by (nonlinear_arith);
        }
        r = r + 1;
    }
    proof {
        rewritten_all(g0, f);
    }
    out
}

impl LayerWeights {
    /// The numbers of the layer.
    pub open spec fn view(&self) -> LayerView {
        LayerView { weights: self.weights.grid(), bias: self.bias@ }
    }
}

/// The numbers of saved layers.
pub open spec fn saved_layer_views(layers: Seq<LayerWeights>) -> Seq<LayerView> {
    layers.map_values(|l: LayerWeights| l.view())
}

/// What a saved matrix that may be absent holds.
pub open spec fn saved_grid(m: Option<Matrix>) -> Option<Grid> {
    match m {
        Some(m) => Some(m.grid()),
        None => None,
    }
}

/// The activation functions of saved layers.
pub open spec fn saved_activations(layers: Seq<LayerWeights>) -> Seq<Activation> {
    layers.map_values(|l: LayerWeights| l.activation)
}

/// Every saved layer has as many numbers as cells.
pub open spec fn saved_layers_fine(layers: Seq<LayerWeights>) -> bool {
    forall|i: int| 0 <= i < layers.len() ==> (#[trigger] layers[i]).weights.well_formed()
}

impl PcActorWeights {
    /// The weights of the actor.
    pub open spec fn weights(self) -> ActorWeights {
        ActorWeights {
            layers: saved_layer_views(self.layers@),
            rezero_alpha: self.rezero_alpha@,
            skip_projections: self.skip_projections@.map_values(
                |m: Option<Matrix>| saved_grid(m),
            ),
        }
    }
}

/// The layers of a network as they are saved.
pub fn save_layers<L: LinAlg>(backend: &L, layers: &Vec<Layer<L>>) -> (r: Vec<LayerWeights>)
    ensures
        saved_layer_views(r@) == layer_views(layers@),
        saved_activations(r@) == activations(layers@),
        saved_layers_fine(r@),
{
    let mut out: Vec<LayerWeights> = Vec::new();
    let mut i: usize = 0;
    while i < layers.len()
        invariant
            i <= layers@.len(),
            out@.len() == i,
            saved_layers_fine(out@),
            forall|j: int|
                0 <= j < i ==> (#[trigger] out@[j])@ == layers@[j]@ && out@[j].activation
                    == layers@[j].activation,
        decreases layers@.len() - i,
    {
        out.push(
            LayerWeights {
                weights: mat_to_cpu(backend, &layers[i].weights),
                bias: backend.vec_to_vec(&layers[i].bias),
                activation: layers[i].activation,
            },
        );
        i = i + 1;
    }
    assert(saved_layer_views(out@) =~= layer_views(layers@));
    assert(saved_activations(out@) =~= activations(layers@));
    out
}

impl<L: LinAlg> PcActor<L> {
    /// The weights as they are saved.
    pub fn to_weights(&self, backend: &L) -> (r: PcActorWeights)
        ensures
            r.weights() == self.weights(),
            saved_activations(r.layers@) == activations(self.layers@),
            saved_layers_fine(r.layers@),
    {
        let layers = save_layers(backend, &self.layers);
        let mut skip_projections: Vec<Option<Matrix>> = Vec::new();
        let mut i: usize = 0;
        while i < self.skip_projections.len()
            invariant
                i <= self.skip_projections@.len(),
                skip_projections@.len() == i,
                forall|j: int|
                    0 <= j < i ==> saved_grid(#[trigger] skip_projections@[j]) == grid_opt::<L>(
                        self.skip_projections@[j],
                    ),
            decreases self.skip_projections@.len() - i,
        {
            let m = match &self.skip_projections[i] {
                Some(m) => Some(mat_to_cpu(backend, m)),
                None => None,
            };
            skip_projections.push(m);
            i = i + 1;
        }
        let r = PcActorWeights {
            layers,
            rezero_alpha: copy_scalars(&self.rezero_alpha),
            skip_projections,
        };
        assert(r.weights().skip_projections =~= self.weights().skip_projections);
        r
    }
}

impl<L: LinAlg> MlpCritic<L> {
    /// The weights as they are saved.
    pub fn to_weights(&self, backend: &L) -> (r: MlpCriticWeights)
        ensures
            saved_layer_views(r.layers@) == layer_views(self.layers@),
            saved_activations(r.layers@) == activations(self.layers@),
            saved_layers_fine(r.layers@),
    {
        MlpCriticWeights { layers: save_layers(backend, &self.layers) }
    }
}

/// Calls `chrono`'s `Utc::now` and `DateTime::to_rfc3339`: the current time as text. Which
/// time it is depends on the clock and is left open; the text is never empty. `Utc::now`
/// panics on a clock set before 1970.
#[verifier::external_body]
fn created_now() -> (r: String)
    ensures
        r@.len() > 0,
{
    Utc::now().to_rfc3339()
}

/// A date of at least eight characters, an underscore and six digits. A plus sign comes
/// first where the year has more than four digits; all else in the date is digits.
pub open spec fn is_stamp(s: Seq<char>) -> bool {
    &&& s.len() >= 15
    &&& s[s.len() - 7] == '_'
    &&& forall|i: int|
        0 <= i < s.len() && i != s.len() - 7 ==> is_digit(#[trigger] s[i]) || (i == 0 && s[i]
            == '+')
}

/// Calls `chrono`'s `Utc::now` and formats the time with `%Y%m%d_%H%M%S`: year of at least
/// four digits (behind a plus sign where it has more), month and day, an underscore, hour,
/// minute and second, two digits each. Which time it is depends on the clock and is left
/// open. `Utc::now` panics on a clock set before 1970.
#[verifier::external_body]
fn stamp_now() -> (r: String)
    ensures
        is_stamp(r@),
{
    Utc::now().format("%Y%m%d_%H%M%S").to_string()
}

/// What a save file says of itself, as of now.
pub fn new_metadata(version: &str, episode: usize, metrics: Option<TrainingMetrics>) -> (r:
    AgentMetadata)
    ensures
        r.version@ == version@,
        r.episode == episode,
        r.metrics == metrics,
        r.created@.len() > 0,
{
    AgentMetadata { version: String::from_str(version), created: created_now(), episode, metrics }
}

/// The name of a checkpoint file.
pub open spec fn checkpoint_name(episode: nat, stamp: Seq<char>) -> Seq<char> {
    "checkpoint_ep"@ + decimal_digits(episode) + "_"@ + stamp + ".json"@
}

/// The name of a checkpoint file with the given time stamp.
pub fn checkpoint_filename_at(episode: usize, stamp: &str) -> (r: String)
    ensures
        r@ == checkpoint_name(episode as nat, stamp@),
{
    let mut name = String::from_str("checkpoint_ep");
    let number = decimal(episode as u64);
    name.append(number.as_str());
    name.append("_");
    name.append(stamp);
    name.append(".json");
    name
}

/// The name of a checkpoint file made now.
pub fn checkpoint_filename(episode: usize) -> (r: String)
    ensures
        exists|stamp: Seq<char>|
            is_stamp(stamp) && r@ == #[trigger] checkpoint_name(episode as nat, stamp),
{
    let stamp = stamp_now();
    checkpoint_filename_at(episode, stamp.as_str())
}

/// A checkpoint name holds no colon, so that any file system takes it.
pub proof fn checkpoint_name_has_no_colon(episode: nat, stamp: Seq<char>)
    requires
        is_stamp(stamp),
    ensures
        !checkpoint_name(episode, stamp).contains(':'),
{
    let digits = decimal_digits(episode);
    reveal_strlit("checkpoint_ep");
    reveal_strlit("_");
    reveal_strlit(".json");
    let name = checkpoint_name(episode, stamp);
    let a = "checkpoint_ep"@.len();
    let b = a + digits.len();
    let c = b + 1;
    let d = c + stamp.len();
    assert forall|i: int| 0 <= i < name.len() implies name[i] != ':' by {
        if i < a {
            assert(name[i] == "checkpoint_ep"@[i]);
        } else if i < b {
            assert(name[i] == digits[i - a]);
            decimal_digits_are_digits(episode, i - a);
        } else if i < c {
            assert(name[i] == '_');
        } else if i < d {
            assert(name[i] == stamp[i - c]);
        } else {
            assert(name[i] == ".json"@[i - d]);
        }
    }
}

} // verus!
