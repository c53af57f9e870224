//! The two networks of an agent as data: their configurations, their weights and what
//! an inference pass hands back.

use vstd::prelude::*;

use crate::elementwise::{blend_mat, blend_vec, polyak};
use crate::linalg::{Grid, LinAlg};
use crate::scalar::Scalar;

verus! {

/// Activation functions of a layer.
#[derive(Clone, Copy, Debug, PartialEq, Eq, Structural)]
pub enum Activation {
    /// Hyperbolic tangent.
    Tanh,
    /// Rectified linear unit.
    Relu,
    /// `x / (1 + |x|)`.
    Softsign,
    /// The identity.
    Linear,
}

/// The name of an activation function.
pub open spec fn activation_text(a: Activation) -> Seq<char> {
    match a {
        Activation::Tanh => "Tanh"@,
        Activation::Relu => "Relu"@,
        Activation::Softsign => "Softsign"@,
        Activation::Linear => "Linear"@,
    }
}

/// The name of an activation function.
pub fn activation_name(a: Activation) -> (r: &'static str)
    ensures
        r@ == activation_text(a),
{
    match a {
        Activation::Tanh => "Tanh",
        Activation::Relu => "Relu",
        Activation::Softsign => "Softsign",
        Activation::Linear => "Linear",
    }
}

/// Size and activation of one hidden layer.
#[derive(Clone, Copy, Debug, PartialEq, Eq, Structural)]
pub struct LayerDef {
    /// Number of neurons.
    pub size: usize,
    /// Activation function.
    pub activation: Activation,
}

/// Configuration of the predictive-coding actor.
#[derive(Clone, Debug)]
pub struct PcActorConfig {
    /// Length of an observation.
    pub input_size: usize,
    /// Hidden layers, input side first.
    pub hidden_layers: Vec<LayerDef>,
    /// Number of actions.
    pub output_size: usize,
    /// Activation of the output layer.
    pub output_activation: Activation,
    /// Relaxation rate of the inference loop.
    pub alpha: Scalar,
    /// Convergence tolerance of the inference loop.
    pub tol: Scalar,
    /// Fewest inference steps.
    pub min_steps: usize,
    /// Most inference steps.
    pub max_steps: usize,
    /// Learning rate of the weights.
    pub lr_weights: Scalar,
    /// Whether all layers relax at once.
    pub synchronous: bool,
    /// Softmax temperature.
    pub temperature: Scalar,
    /// Share of the back-propagated error in a hidden layer's update.
    pub local_lambda: Scalar,
    /// Whether hidden layers carry skip connections.
    pub residual: bool,
    /// Initial scale of a skip-connected layer.
    pub rezero_init: Scalar,
}

/// Configuration of the critic.
#[derive(Clone, Debug)]
pub struct MlpCriticConfig {
    /// Length of the critic's input.
    pub input_size: usize,
    /// Hidden layers, input side first.
    pub hidden_layers: Vec<LayerDef>,
    /// Activation of the output layer.
    pub output_activation: Activation,
    /// Learning rate.
    pub lr: Scalar,
}

impl PcActorConfig {
    /// The same settings.
    pub open spec fn alike(self, other: PcActorConfig) -> bool {
        &&& self.input_size == other.input_size
        &&& self.hidden_layers@ == other.hidden_layers@
        &&& self.output_size == other.output_size
        &&& self.output_activation == other.output_activation
        &&& self.alpha == other.alpha
        &&& self.tol == other.tol
        &&& self.min_steps == other.min_steps
        &&& self.max_steps == other.max_steps
        &&& self.lr_weights == other.lr_weights
        &&& self.synchronous == other.synchronous
        &&& self.temperature == other.temperature
        &&& self.local_lambda == other.local_lambda
        &&& self.residual == other.residual
        &&& self.rezero_init == other.rezero_init
    }

    /// A copy.
    pub fn copy(&self) -> (r: PcActorConfig)
        ensures
            r.alike(*self),
    {
        let hidden_layers = self.hidden_layers.clone();
        assert(hidden_layers@ =~= self.hidden_layers@);
        PcActorConfig {
            input_size: self.input_size,
            hidden_layers,
            output_size: self.output_size,
            output_activation: self.output_activation,
            alpha: self.alpha,
            tol: self.tol,
            min_steps: self.min_steps,
            max_steps: self.max_steps,
            lr_weights: self.lr_weights,
            synchronous: self.synchronous,
            temperature: self.temperature,
            local_lambda: self.local_lambda,
            residual: self.residual,
            rezero_init: self.rezero_init,
        }
    }
}

impl MlpCriticConfig {
    /// The same settings.
    pub open spec fn alike(self, other: MlpCriticConfig) -> bool {
        &&& self.input_size == other.input_size
        &&& self.hidden_layers@ == other.hidden_layers@
        &&& self.output_activation == other.output_activation
        &&& self.lr == other.lr
    }

    /// A copy.
    pub fn copy(&self) -> (r: MlpCriticConfig)
        ensures
            r.alike(*self),
    {
        let hidden_layers = self.hidden_layers.clone();
        assert(hidden_layers@ =~= self.hidden_layers@);
        MlpCriticConfig {
            input_size: self.input_size,
            hidden_layers,
            output_activation: self.output_activation,
            lr: self.lr,
        }
    }
}

/// A dense layer.
pub struct Layer<L: LinAlg> {
    /// Weights, one row per neuron.
    pub weights: L::Matrix,
    /// Biases, one per neuron.
    pub bias: L::Vector,
    /// Activation function.
    pub activation: Activation,
}

/// What a layer holds.
#[verifier::ext_equal]
pub struct LayerView {
    /// Weights.
    pub weights: Grid,
    /// Biases.
    pub bias: Seq<Scalar>,
}

impl<L: LinAlg> Layer<L> {
    /// The numbers of the layer.
    pub open spec fn view(&self) -> LayerView {
        LayerView { weights: L::grid(self.weights), bias: L::seq(self.bias) }
    }
}

/// The numbers of each layer.
pub open spec fn layer_views<L: LinAlg>(layers: Seq<Layer<L>>) -> Seq<LayerView> {
    layers.map_values(|l: Layer<L>| l.view())
}

/// What a matrix that may be absent holds.
pub open spec fn grid_opt<L: LinAlg>(m: Option<L::Matrix>) -> Option<Grid> {
    match m {
        Some(m) => Some(L::grid(m)),
        None => None,
    }
}

/// What a vector that may be absent holds.
pub open spec fn seq_opt<L: LinAlg>(v: Option<L::Vector>) -> Option<Seq<Scalar>> {
    match v {
        Some(v) => Some(L::seq(v)),
        None => None,
    }
}

/// The predictive-coding actor as data.
pub struct PcActor<L: LinAlg> {
    /// Hidden layers and, last, the output layer.
    pub layers: Vec<Layer<L>>,
    /// Configuration that the network runs with.
    pub config: PcActorConfig,
    /// Scale of each skip-connected layer.
    pub rezero_alpha: Vec<Scalar>,
    /// Projection of each skip connection whose ends differ in size.
    pub skip_projections: Vec<Option<L::Matrix>>,
    /// For each hidden layer, the index of its scale where it is skip-connected.
    pub skip_alpha: Vec<Option<usize>>,
}

/// Everything about an actor that learning changes.
#[verifier::ext_equal]
pub struct ActorWeights {
    /// Weights and biases per layer.
    pub layers: Seq<LayerView>,
    /// Scales of the skip-connected layers.
    pub rezero_alpha: Seq<Scalar>,
    /// Projections of the skip connections.
    pub skip_projections: Seq<Option<Grid>>,
}

impl ActorWeights {
    /// Two actors whose weights correspond one to one.
    pub open spec fn same_topology(self, other: ActorWeights) -> bool {
        &&& self.layers.len() == other.layers.len()
        &&& forall|i: int| 0 <= i < self.layers.len() ==> {
            &&& (#[trigger] self.layers[i]).weights.same_shape(other.layers[i].weights)
            &&& self.layers[i].bias.len() == other.layers[i].bias.len()
        }
        &&& self.rezero_alpha.len() == other.rezero_alpha.len()
        &&& self.skip_projections.len() == other.skip_projections.len()
        &&& forall|i: int| 0 <= i < self.skip_projections.len() ==> match (
            #[trigger] self.skip_projections[i],
            other.skip_projections[i],
        ) {
            (Some(a), Some(b)) => a.same_shape(b),
            (None, None) => true,
            _ => false,
        }
    }
}

/// A projection moved toward that of a live actor.
pub open spec fn projection_averaged<L: LinAlg>(
    target: Option<Grid>,
    live: Option<Grid>,
    tau: Scalar,
) -> Option<Grid> {
    match (target, live) {
        (Some(t), Some(l)) => Some(grid_averaged::<L>(t, l, tau)),
        _ => target,
    }
}

/// A matrix moved toward that of a live network.
pub open spec fn grid_averaged<L: LinAlg>(target: Grid, live: Grid, tau: Scalar) -> Grid {
    Grid::tabulate(
        target.rows,
        target.cols,
        |r: int, c: int| polyak::<L>(target.at(r, c), live.at(r, c), tau),
    )
}

/// A vector moved toward that of a live network.
pub open spec fn seq_averaged<L: LinAlg>(
    target: Seq<Scalar>,
    live: Seq<Scalar>,
    tau: Scalar,
) -> Seq<Scalar> {
    Seq::new(target.len(), |i: int| polyak::<L>(target[i], live[i], tau))
}

impl LayerView {
    /// The layer moved toward that of a live network.
    pub open spec fn averaged<L: LinAlg>(self, live: LayerView, tau: Scalar) -> LayerView {
        LayerView {
            weights: grid_averaged::<L>(self.weights, live.weights, tau),
            bias: seq_averaged::<L>(self.bias, live.bias, tau),
        }
    }
}

impl ActorWeights {
    /// The weights moved toward those of a live actor: `(1 - tau) * target + tau * live`.
    pub open spec fn averaged<L: LinAlg>(self, live: ActorWeights, tau: Scalar) -> ActorWeights {
        ActorWeights {
            layers: Seq::new(
                self.layers.len(),
                |i: int| self.layers[i].averaged::<L>(live.layers[i], tau),
            ),
            rezero_alpha: seq_averaged::<L>(self.rezero_alpha, live.rezero_alpha, tau),
            skip_projections: Seq::new(
                self.skip_projections.len(),
                |i: int|
                    projection_averaged::<L>(
                        self.skip_projections[i],
                        live.skip_projections[i],
                        tau,
                    ),
            ),
        }
    }
}

/// Averaging keeps the topology.
pub proof fn averaging_keeps_topology<L: LinAlg>(t: ActorWeights, live: ActorWeights, tau: Scalar)
    requires
        t.same_topology(live),
    ensures
        t.averaged::<L>(live, tau).same_topology(live),
{
    let a = t.averaged::<L>(live, tau);
    assert forall|i: int| 0 <= i < a.layers.len() implies {
        &&& (#[trigger] a.layers[i]).weights.same_shape(live.layers[i].weights)
        &&& a.layers[i].bias.len() == live.layers[i].bias.len()
    } by {
        assert(t.layers[i].weights.same_shape(live.layers[i].weights));
    }
    assert forall|i: int| 0 <= i < a.skip_projections.len() implies match (
        #[trigger] a.skip_projections[i],
        live.skip_projections[i],
    ) {
        (Some(x), Some(y)) => x.same_shape(y),
        (None, None) => true,
        _ => false,
    } by {
        assert(match (t.skip_projections[i], live.skip_projections[i]) {
            (Some(x), Some(y)) => x.same_shape(y),
            (None, None) => true,
            _ => false,
        });
    }
}

/// The activation function of each layer.
pub open spec fn activations<L: LinAlg>(layers: Seq<Layer<L>>) -> Seq<Activation> {
    layers.map_values(|l: Layer<L>| l.activation)
}

/// Having the same topology goes both ways.
pub proof fn topology_symmetric(a: ActorWeights, b: ActorWeights)
    requires
        a.same_topology(b),
    ensures
        b.same_topology(a),
{
    assert forall|i: int| 0 <= i < b.layers.len() implies {
        &&& (#[trigger] b.layers[i]).weights.same_shape(a.layers[i].weights)
        &&& b.layers[i].bias.len() == a.layers[i].bias.len()
    } by {
        assert(a.layers[i].weights.same_shape(b.layers[i].weights));
    }
    assert forall|i: int| 0 <= i < b.skip_projections.len() implies match (
        #[trigger] b.skip_projections[i],
        a.skip_projections[i],
    ) {
        (Some(x), Some(y)) => x.same_shape(y),
        (None, None) => true,
        _ => false,
    } by {
        assert(match (a.skip_projections[i], b.skip_projections[i]) {
            (Some(x), Some(y)) => x.same_shape(y),
            (None, None) => true,
            _ => false,
        });
    }
}

/// Having the same topology carries over.
pub proof fn topology_transitive(a: ActorWeights, b: ActorWeights, c: ActorWeights)
    requires
        a.same_topology(b),
        b.same_topology(c),
    ensures
        a.same_topology(c),
{
    assert forall|i: int| 0 <= i < a.layers.len() implies {
        &&& (#[trigger] a.layers[i]).weights.same_shape(c.layers[i].weights)
        &&& a.layers[i].bias.len() == c.layers[i].bias.len()
    } by {
        assert(a.layers[i].weights.same_shape(b.layers[i].weights));
        assert(b.layers[i].weights.same_shape(c.layers[i].weights));
    }
    assert forall|i: int| 0 <= i < a.skip_projections.len() implies match (
        #[trigger] a.skip_projections[i],
        c.skip_projections[i],
    ) {
        (Some(x), Some(y)) => x.same_shape(y),
        (None, None) => true,
        _ => false,
    } by {
        assert(match (a.skip_projections[i], b.skip_projections[i]) {
            (Some(x), Some(y)) => x.same_shape(y),
            (None, None) => true,
            _ => false,
        });
        assert(match (b.skip_projections[i], c.skip_projections[i]) {
            (Some(x), Some(y)) => x.same_shape(y),
            (None, None) => true,
            _ => false,
        });
    }
}

/// Every actor has its own topology.
pub proof fn topology_reflexive(a: ActorWeights)
    ensures
        a.same_topology(a),
{
}

/// What each skip projection holds.
pub open spec fn projection_views<L: LinAlg>(p: Seq<Option<L::Matrix>>) -> Seq<Option<Grid>> {
    p.map_values(|m: Option<L::Matrix>| grid_opt::<L>(m))
}

impl<L: LinAlg> PcActor<L> {
    /// The weights of the actor.
    pub open spec fn weights(self) -> ActorWeights {
        ActorWeights {
            layers: layer_views(self.layers@),
            rezero_alpha: self.rezero_alpha@,
            skip_projections: projection_views::<L>(self.skip_projections@),
        }
    }
}

/// Copies of the layers of a network.
pub fn copy_layers<L: LinAlg>(layers: &Vec<Layer<L>>) -> (r: Vec<Layer<L>>)
    ensures
        layer_views(r@) == layer_views(layers@),
        activations(r@) == activations(layers@),
{
    let mut out: Vec<Layer<L>> = Vec::new();
    let mut i: usize = 0;
    while i < layers.len()
        invariant
            i <= layers@.len(),
            out@.len() == i,
            forall|j: int| 0 <= j < i ==> (#[trigger] out@[j])@ == layers@[j]@,
            forall|j: int| 0 <= j < i ==> (#[trigger] out@[j]).activation == layers@[j].activation,
        decreases layers@.len() - i,
    {
        out.push(
            Layer {
                weights: L::mat_clone(&layers[i].weights),
                bias: L::vec_clone(&layers[i].bias),
                activation: layers[i].activation,
            },
        );
        i = i + 1;
    }
    assert(layer_views(out@) =~= layer_views(layers@));
    assert(activations(out@) =~= activations(layers@));
    out
}

fn copy_projections<L: LinAlg>(p: &Vec<Option<L::Matrix>>) -> (r: Vec<Option<L::Matrix>>)
    ensures
        projection_views::<L>(r@) == projection_views::<L>(p@),
{
    let mut out: Vec<Option<L::Matrix>> = Vec::new();
    let mut i: usize = 0;
    while i < p.len()
        invariant
            i <= p@.len(),
            out@.len() == i,
            forall|j: int| 0 <= j < i ==> grid_opt::<L>(#[trigger] out@[j]) == grid_opt::<L>(p@[j]),
        decreases p@.len() - i,
    {
        let q = match &p[i] {
            Some(m) => Some(L::mat_clone(m)),
            None => None,
        };
        assert(grid_opt::<L>(q) == grid_opt::<L>(p@[i as int]));
        out.push(q);
        i = i + 1;
    }
    assert(projection_views::<L>(out@) =~= projection_views::<L>(p@));
    out
}

fn copy_numbers(v: &Vec<Scalar>) -> (r: Vec<Scalar>)
    ensures
        r@ == v@,
{
    let r = v.clone();
    assert(r@ =~= v@);
    r
}

impl<L: LinAlg> PcActor<L> {
    /// The same network: weights, activation functions, settings and wiring.
    pub open spec fn alike(self, other: PcActor<L>) -> bool {
        &&& self.weights() == other.weights()
        &&& activations(self.layers@) == activations(other.layers@)
        &&& self.config.alike(other.config)
        &&& self.skip_alpha@ == other.skip_alpha@
    }

    /// The index of a hidden layer's skip scale, where it is skip-connected.
    pub open spec fn skip_index(self, i: int) -> Option<usize> {
        if 0 <= i < self.skip_alpha@.len() {
            self.skip_alpha@[i]
        } else {
            None
        }
    }

    /// The index of a hidden layer's skip scale, where it is skip-connected.
    pub fn skip_alpha_index(&self, i: usize) -> (r: Option<usize>)
        ensures
            r == self.skip_index(i as int),
    {
        if i < self.skip_alpha.len() {
            self.skip_alpha[i]
        } else {
            None
        }
    }

    /// A copy.
    pub fn copy(&self) -> (r: PcActor<L>)
        ensures
            r.alike(*self),
    {
        let skip_alpha = self.skip_alpha.clone();
        assert(skip_alpha@ =~= self.skip_alpha@);
        PcActor {
            layers: copy_layers(&self.layers),
            config: self.config.copy(),
            rezero_alpha: copy_numbers(&self.rezero_alpha),
            skip_projections: copy_projections::<L>(&self.skip_projections),
            skip_alpha,
        }
    }

    /// Takes over the weights of another actor of the same topology; settings and wiring stay.
    pub fn copy_weights_from(&mut self, other: &PcActor<L>)
        requires
            old(self).weights().same_topology(other.weights()),
        ensures
            final(self).weights() == other.weights(),
            final(self).config == old(self).config,
            final(self).skip_alpha == old(self).skip_alpha,
            activations(final(self).layers@) == activations(old(self).layers@),
    {
        let ghost acts = activations(self.layers@);
        let n: usize = self.layers.len();
        assert(other.weights().layers.len() == n);
        let mut i: usize = 0;
        while i < n
            invariant
                i <= n,
                self.layers@.len() == n,
                other.layers@.len() == n,
                self.config == old(self).config,
                self.skip_alpha == old(self).skip_alpha,
                acts.len() == n,
                forall|j: int| 0 <= j < i ==> (#[trigger] self.layers@[j])@ == other.layers@[j]@,
                forall|j: int| 0 <= j < n ==> (#[trigger] self.layers@[j]).activation == acts[j],
            decreases n - i,
        {
            self.layers[i].weights = L::mat_clone(&other.layers[i].weights);
            self.layers[i].bias = L::vec_clone(&other.layers[i].bias);
            i = i + 1;
        }
        self.rezero_alpha = copy_numbers(&other.rezero_alpha);
        self.skip_projections = copy_projections::<L>(&other.skip_projections);
        assert(layer_views(self.layers@) =~= layer_views(other.layers@));
        assert(activations(self.layers@) =~= acts);
    }

    /// Moves the weights toward those of a live actor of the same topology.
    pub fn polyak_update_from(&mut self, backend: &L, live: &PcActor<L>, tau: Scalar)
        requires
            old(self).weights().same_topology(live.weights()),
        ensures
            final(self).weights() == old(self).weights().averaged::<L>(live.weights(), tau),
            final(self).config == old(self).config,
            final(self).skip_alpha == old(self).skip_alpha,
            activations(final(self).layers@) == activations(old(self).layers@),
    {
        let ghost start = self.weights();
        let ghost goal = live.weights();
        let ghost acts = activations(self.layers@);
        let n: usize = self.layers.len();
        assert(start.layers.len() == n && goal.layers.len() == n);
        let mut i: usize = 0;
        while i < n
            invariant
                i <= n,
                self.layers@.len() == n,
                live.layers@.len() == n,
                start.layers.len() == n,
                start == old(self).weights(),
                goal == live.weights(),
                start.same_topology(goal),
                self.config == old(self).config,
                self.skip_alpha == old(self).skip_alpha,
                self.rezero_alpha == old(self).rezero_alpha,
                self.skip_projections == old(self).skip_projections,
                acts.len() == n,
                forall|j: int|
                    0 <= j < i ==> (#[trigger] self.layers@[j])@ == start.layers[j].averaged::<L>(
                        goal.layers[j],
                        tau,
                    ),
                forall|j: int| i <= j < n ==> (#[trigger] self.layers@[j])@ == start.layers[j],
                forall|j: int| 0 <= j < n ==> (#[trigger] self.layers@[j]).activation == acts[j],
            decreases n - i,
        {
            assert(start.layers[i as int].weights.same_shape(goal.layers[i as int].weights));
            assert(live.layers@[i as int]@ == goal.layers[i as int]);
            blend_mat(backend, &mut self.layers[i].weights, &live.layers[i].weights, tau);
            blend_vec(backend, &mut self.layers[i].bias, &live.layers[i].bias, tau);
            i = i + 1;
        }
        let m: usize = self.rezero_alpha.len();
        let mut k: usize = 0;
        while k < m
            invariant
                k <= m,
                self.rezero_alpha@.len() == m,
                live.rezero_alpha@.len() == m,
                start == old(self).weights(),
                goal == live.weights(),
                self.config == old(self).config,
                self.skip_alpha == old(self).skip_alpha,
                self.skip_projections == old(self).skip_projections,
                forall|j: int|
                    0 <= j < k ==> (#[trigger] self.rezero_alpha@[j]) == polyak::<L>(
                        start.rezero_alpha[j],
                        goal.rezero_alpha[j],
                        tau,
                    ),
                forall|j: int|
                    k <= j < m ==> (#[trigger] self.rezero_alpha@[j]) == start.rezero_alpha[j],
                self.layers@.len() == n,
                start.layers.len() == n,
                acts.len() == n,
                forall|j: int|
                    0 <= j < n ==> (#[trigger] self.layers@[j])@ == start.layers[j].averaged::<L>(
                        goal.layers[j],
                        tau,
                    ),
                forall|j: int| 0 <= j < n ==> (#[trigger] self.layers@[j]).activation == acts[j],
            decreases m - k,
        {
            let x = self.rezero_alpha[k];
            let y = L::scalar_add(
                L::scalar_mul(L::scalar_sub(Scalar::one(), tau), x),
                L::scalar_mul(tau, live.rezero_alpha[k]),
            );
            self.rezero_alpha.set(k, y);
            k = k + 1;
        }
        assert forall|i: int| 0 <= i < live.skip_projections@.len() implies match (
            grid_opt::<L>(#[trigger] self.skip_projections@[i]),
            grid_opt::<L>(live.skip_projections@[i]),
        ) {
            (Some(a), Some(b)) => a.same_shape(b),
            (None, None) => true,
            _ => false,
        } by {
            assert(start.skip_projections[i] == grid_opt::<L>(self.skip_projections@[i]));
            assert(goal.skip_projections[i] == grid_opt::<L>(live.skip_projections@[i]));
        }
        blend_projections(backend, &mut self.skip_projections, &live.skip_projections, tau);
        let ghost end = start.averaged::<L>(goal, tau);
        assert(layer_views(self.layers@) =~= end.layers);
        assert(self.rezero_alpha@ =~= end.rezero_alpha);
        assert(projection_views::<L>(self.skip_projections@) =~= end.skip_projections);
        assert(activations(self.layers@) =~= acts);
    }
}

fn blend_projections<L: LinAlg>(
    backend: &L,
    target: &mut Vec<Option<L::Matrix>>,
    live: &Vec<Option<L::Matrix>>,
    tau: Scalar,
)
    requires
        old(target)@.len() == live@.len(),
        forall|i: int| 0 <= i < live@.len() ==> match (
            grid_opt::<L>(#[trigger] old(target)@[i]),
            grid_opt::<L>(live@[i]),
        ) {
            (Some(a), Some(b)) => a.same_shape(b),
            (None, None) => true,
            _ => false,
        },
    ensures
        final(target)@.len() == old(target)@.len(),
        forall|i: int|
            0 <= i < live@.len() ==> grid_opt::<L>(#[trigger] final(target)@[i])
                == projection_averaged::<L>(
                grid_opt::<L>(old(target)@[i]),
                grid_opt::<L>(live@[i]),
                tau,
            ),
{
    let n: usize = target.len();
    let mut i: usize = 0;
    while i < n
        invariant
            i <= n,
            n == live@.len(),
            target@.len() == n,
            old(target)@.len() == n,
            forall|j: int| 0 <= j < live@.len() ==> match (
                grid_opt::<L>(#[trigger] old(target)@[j]),
                grid_opt::<L>(live@[j]),
            ) {
                (Some(a), Some(b)) => a.same_shape(b),
                (None, None) => true,
                _ => false,
            },
            forall|j: int|
                0 <= j < i ==> grid_opt::<L>(#[trigger] target@[j]) == projection_averaged::<L>(
                    grid_opt::<L>(old(target)@[j]),
                    grid_opt::<L>(live@[j]),
                    tau,
                ),
            forall|j: int| i <= j < n ==> (#[trigger] target@[j]) == old(target)@[j],
        decreases n - i,
    {
        assert(target@[i as int] == old(target)@[i as int]);
        let q = match &target[i] {
            Some(t) => {
                let mut m = L::mat_clone(t);
                match &live[i] {
                    Some(l) => {
                        blend_mat(backend, &mut m, l, tau);
                    },
                    None => {},
                }
                Some(m)
            },
            None => None,
        };
        target.set(i, q);
        i = i + 1;
    }
}

/// The critic as data.
pub struct MlpCritic<L: LinAlg> {
    /// Hidden layers and, last, the output layer.
    pub layers: Vec<Layer<L>>,
    /// Configuration that the network runs with.
    pub config: MlpCriticConfig,
}

/// What an inference pass of the actor hands back.
pub struct InferResult<L: LinAlg> {
    /// Converged output, one number per action.
    pub y_conv: L::Vector,
    /// Hidden activations of all layers, one after the other.
    pub latent_concat: L::Vector,
    /// Hidden activations per layer.
    pub hidden_states: Vec<L::Vector>,
    /// Prediction errors, output side first.
    pub prediction_errors: Vec<L::Vector>,
    /// How far the prediction was off.
    pub surprise_score: Scalar,
    /// Inference steps taken.
    pub steps_used: usize,
    /// Whether the inference loop converged.
    pub converged: bool,
    /// Activations before the skip connection, for skip-connected layers.
    pub tanh_components: Vec<Option<L::Vector>>,
}

} // verus!
